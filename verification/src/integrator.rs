//! How a light path proceeds from one surface to the next.
//!
//! The colour that a ray brings back is decided bounce by bounce: a path ends
//! in darkness when its budget of bounces is spent or a surface absorbs it,
//! ends in the sky when it leaves the scene, and otherwise goes on with one
//! bounce less to spend.

use vstd::prelude::*;

verus! {

/// What became of a ray that was followed into the scene.
#[derive(Clone, Copy, Debug, PartialEq, Eq, Structural)]
pub enum Encounter {
    /// The ray met no surface.
    Miss,
    /// The ray met a surface that scattered nothing back.
    Absorbed,
    /// The ray met a surface that sent a scattered ray on.
    Scattered,
}

/// What a ray contributes to its pixel.
#[derive(Clone, Copy, Debug, PartialEq, Eq, Structural)]
pub enum Step {
    /// Nothing: the colour is black.
    Black,
    /// The colour of the background along the ray.
    Sky,
    /// The colour of the scattered ray, followed with `depth` bounces left
    /// and tinted by the surface.
    Bounce { depth: i32 },
}

/// Whether a path with `depth` bounces left is at its end before it meets
/// anything.
pub open spec fn spent(depth: i32) -> bool {
    depth <= 0
}

/// The contribution of a ray with `depth` bounces left that met `encounter`.
pub open spec fn step(depth: i32, encounter: Encounter) -> Step {
    if spent(depth) {
        Step::Black
    } else {
        match encounter {
            Encounter::Miss => Step::Sky,
            Encounter::Absorbed => Step::Black,
            Encounter::Scattered => Step::Bounce { depth: (depth - 1) as i32 },
        }
    }
}

/// The number of bounces of a path that starts with `depth` bounces to spend
/// and meets `encounters` one after the other, for as long as it goes on.
pub open spec fn bounces(depth: i32, encounters: Seq<Encounter>) -> nat
    decreases encounters.len(),
{
    if encounters.len() == 0 {
        0
    } else {
        match step(depth, encounters[0]) {
            Step::Bounce { depth: rest } => 1 + bounces(rest, encounters.drop_first()),
            _ => 0,
        }
    }
}

/// Whether a path with `depth` bounces left ends without looking at the
/// scene.
pub fn is_spent(depth: i32) -> (done: bool)
    ensures
        done == spent(depth),
{
    depth <= 0
}

/// Decides what a ray with `depth` bounces left contributes, given what it
/// met. A spent path is black whatever it would have met.
pub fn next_step(depth: i32, encounter: Encounter) -> (next: Step)
    ensures
        next == step(depth, encounter),
        spent(depth) ==> next == Step::Black,
        next matches Step::Bounce { depth: rest } ==> 0 <= rest < depth,
{
    if depth <= 0 {
        return Step::Black;
    }
    match encounter {
        Encounter::Miss => Step::Sky,
        Encounter::Absorbed => Step::Black,
        Encounter::Scattered => Step::Bounce { depth: depth - 1 },
    }
}

/// A path never bounces more often than its budget allows, whatever it
/// meets: following a ray always comes to an end.
pub proof fn lemma_path_is_bounded(depth: i32, encounters: Seq<Encounter>)
    ensures
        bounces(depth, encounters) <= (if depth > 0 { depth as int } else { 0 }),
    decreases encounters.len(),
{
    if encounters.len() > 0 {
        match step(depth, encounters[0]) {
            Step::Bounce { depth: rest } => {
                lemma_path_is_bounded(rest, encounters.drop_first());
            },
            _ => {},
        }
    }
}

} // verus!
