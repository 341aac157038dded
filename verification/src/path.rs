//! The control of one light path: what the integrator does after each
//! segment of the path, and the bound on the number of bounces.
//!
//! The integrator follows a ray from the camera. Each segment either
//! leaves the scene, is absorbed by the surface it hits, or is scattered
//! into a new segment. A path is cut off, and counts as black, when a
//! segment is scattered after [`MAX_DEPTH`] bounces.

use vstd::prelude::*;

verus! {

/// The largest number of bounces that a path may take.
pub const MAX_DEPTH: u32 = 50;

/// What became of one segment of a path.
#[derive(Clone, Copy, Debug, PartialEq, Eq, Structural)]
pub enum Event {
    /// The segment hit nothing.
    Miss,
    /// The segment hit a surface, which did not scatter it.
    Absorbed,
    /// The segment hit a surface, which scattered it.
    Scattered,
}

/// What the integrator does after a segment.
#[derive(Clone, Copy, Debug, PartialEq, Eq, Structural)]
pub enum Step {
    /// The path ends with the colour of the background.
    Background,
    /// The path ends with black.
    Black,
    /// The path goes on with the scattered segment, one bounce deeper.
    Bounce,
}

/// The step that follows `event` on a segment that `depth` bounces precede.
pub open spec fn decide(depth: nat, event: Event) -> Step {
    match event {
        Event::Miss => Step::Background,
        Event::Absorbed => Step::Black,
        Event::Scattered => if depth < MAX_DEPTH {
            Step::Bounce
        } else {
            Step::Black
        },
    }
}

/// How a path ends: with which step, and after how many bounces.
pub ghost struct End {
    pub step: Step,
    pub bounces: nat,
}

/// The end of the path whose segments, from the one that `depth` bounces
/// precede, meet `events` in turn; `None` where the events run out before
/// the path has ended.
pub open spec fn run(depth: nat, events: Seq<Event>) -> Option<End>
    decreases events.len(),
{
    if events.len() == 0 {
        None
    } else if decide(depth, events[0]) == Step::Bounce {
        run(depth + 1, events.skip(1))
    } else {
        Some(End { step: decide(depth, events[0]), bounces: depth })
    }
}

/// A path of `depth` bounces ends within the next `MAX_DEPTH - depth + 1`
/// segments, whatever they meet, and never with more than `MAX_DEPTH`
/// bounces.
pub proof fn lemma_run_ends(depth: nat, events: Seq<Event>)
    requires
        depth <= MAX_DEPTH,
        events.len() > MAX_DEPTH - depth,
    ensures
        run(depth, events) is Some,
        run(depth, events)->0.step != Step::Bounce,
        depth <= run(depth, events)->0.bounces <= MAX_DEPTH,
    decreases events.len(),
{
    if decide(depth, events[0]) == Step::Bounce {
        lemma_run_ends(depth + 1, events.skip(1));
    }
}

/// Where every segment is scattered, as between mirrors that face each
/// other, the path takes exactly `MAX_DEPTH` bounces and ends with black.
pub proof fn lemma_run_of_scatters_is_black(depth: nat, events: Seq<Event>)
    requires
        depth <= MAX_DEPTH,
        events.len() > MAX_DEPTH - depth,
        forall|k: int| 0 <= k <= MAX_DEPTH - depth ==> events[k] == Event::Scattered,
    ensures
        run(depth, events) == Some(End { step: Step::Black, bounces: MAX_DEPTH as nat }),
    decreases events.len(),
{
    if depth < MAX_DEPTH {
        let rest = events.skip(1);
        assert forall|k: int| 0 <= k <= MAX_DEPTH - (depth + 1) implies rest[k]
            == Event::Scattered by {
            assert(rest[k] == events[k + 1]);
        }
        lemma_run_of_scatters_is_black(depth + 1, rest);
    }
}

/// A path whose present segment hits nothing ends there, with the
/// background and with the bounces it had: on the first segment, with none.
pub proof fn lemma_miss_is_background(depth: nat, events: Seq<Event>)
    requires
        events.len() > 0,
        events[0] == Event::Miss,
    ensures
        run(depth, events) == Some(End { step: Step::Background, bounces: depth }),
{
}

/// The present depth of one path.
#[derive(Clone, Copy, Debug)]
pub struct Path {
    depth: u32,
}

impl Path {
    #[verifier::type_invariant]
    spec fn bounded(self) -> bool {
        self.depth <= MAX_DEPTH
    }

    /// The number of bounces taken so far.
    pub closed spec fn bounces(&self) -> nat {
        self.depth as nat
    }

    /// A path at its first segment.
    pub fn new() -> (path: Path)
        ensures
            path.bounces() == 0,
    {
        Path { depth: 0 }
    }

    /// The number of bounces taken so far, which never exceeds [`MAX_DEPTH`].
    pub fn depth(&self) -> (depth: u32)
        ensures
            depth == self.bounces(),
            depth <= MAX_DEPTH,
    {
        proof {
            use_type_invariant(self);
        }
        self.depth
    }

    /// Takes note of what the present segment met, and says what follows.
    /// On [`Step::Bounce`] the path is one bounce deeper; otherwise it has
    /// ended and stays as it is.
    pub fn advance(&mut self, event: Event) -> (step: Step)
        ensures
            step == decide(old(self).bounces(), event),
            final(self).bounces() == old(self).bounces() + if step == Step::Bounce {
                1nat
            } else {
                0nat
            },
            final(self).bounces() <= MAX_DEPTH,
    {
        proof {
            use_type_invariant(&*self);
        }
        match event {
            Event::Miss => Step::Background,
            Event::Absorbed => Step::Black,
            Event::Scattered => {
                if self.depth < MAX_DEPTH {
                    self.depth = self.depth + 1;
                    Step::Bounce
                } else {
                    Step::Black
                }
            },
        }
    }
}

} // verus!
