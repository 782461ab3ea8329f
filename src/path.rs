//! The bounce budget of a light path.
//!
//! The radiance estimator follows a path from the camera: it traces a ray,
//! and where the surface it hits scatters the ray it goes on with the
//! scattered ray. A path ends when a ray leaves the scene (it then sees the
//! sky), when a surface absorbs it, or when the bounce budget is spent (both
//! black). `LightPath` makes those decisions; the caller traces the rays and
//! multiplies the attenuations.
use vstd::prelude::*;

verus! {

/// What became of a traced ray.
#[derive(Clone, Copy, Debug, PartialEq, Eq, Structural)]
pub enum Bounce {
    /// It hit nothing in the scene.
    Miss,
    /// The surface it hit absorbed it.
    Absorbed,
    /// The surface it hit scattered it into a new ray.
    Scattered,
}

/// The light at the end of a path.
#[derive(Clone, Copy, Debug, PartialEq, Eq, Structural)]
pub enum PathEnd {
    /// No light: absorbed, or the bounce budget was spent.
    Black,
    /// The background seen along the last ray.
    Sky,
}

/// What the estimator does next.
#[derive(Clone, Copy, Debug, PartialEq, Eq, Structural)]
pub enum PathStep {
    /// Trace the ray in hand through the scene.
    Trace,
    /// Stop: the path ends with this light.
    End(PathEnd),
}

/// The step taken with `bounces_left` bounces left: trace while any is left.
pub open spec fn step_with(bounces_left: nat) -> PathStep {
    if bounces_left == 0 {
        PathStep::End(PathEnd::Black)
    } else {
        PathStep::Trace
    }
}

/// Bounces left, and the next step, once a ray traced with `bounces_left`
/// bounces left came to `bounce`.
pub open spec fn after_bounce(bounces_left: nat, bounce: Bounce) -> (nat, PathStep) {
    match bounce {
        Bounce::Miss => (bounces_left, PathStep::End(PathEnd::Sky)),
        Bounce::Absorbed => (bounces_left, PathStep::End(PathEnd::Black)),
        Bounce::Scattered => ((bounces_left - 1) as nat, step_with((bounces_left - 1) as nat)),
    }
}

/// How a path with `bounces_left` bounces left ends when its rays come to
/// `bounces` in turn, and how many rays it traces; `None` where `bounces`
/// runs out before the path ends.
pub open spec fn path_outcome(bounces_left: nat, bounces: Seq<Bounce>) -> Option<(PathEnd, nat)>
    decreases bounces.len(),
{
    if bounces_left == 0 {
        Some((PathEnd::Black, 0))
    } else if bounces.len() == 0 {
        None
    } else {
        match bounces[0] {
            Bounce::Miss => Some((PathEnd::Sky, 1)),
            Bounce::Absorbed => Some((PathEnd::Black, 1)),
            Bounce::Scattered => match path_outcome((bounces_left - 1) as nat, bounces.drop_first()) {
                Some((end, traced)) => Some((end, traced + 1)),
                None => None,
            },
        }
    }
}

/// The bounce budget of one path.
#[derive(Clone, Copy, Debug, PartialEq, Eq, Structural)]
pub struct LightPath {
    /// Rays that may still be traced.
    pub bounces_left: u64,
}

impl LightPath {
    /// A path that may trace at most `max_bounces` rays.
    pub fn new(max_bounces: u64) -> (r: LightPath)
        ensures
            r.bounces_left == max_bounces,
    {
        LightPath { bounces_left: max_bounces }
    }

    /// The step to take with the ray in hand.
    pub fn next(&self) -> (r: PathStep)
        ensures
            r == step_with(self.bounces_left as nat),
    {
        if self.bounces_left == 0 {
            PathStep::End(PathEnd::Black)
        } else {
            PathStep::Trace
        }
    }

    /// Records what became of the ray just traced, and gives the next step.
    pub fn record(&mut self, bounce: Bounce) -> (r: PathStep)
        requires
            old(self).bounces_left > 0,
        ensures
            (final(self).bounces_left as nat, r) == after_bounce(old(self).bounces_left as nat, bounce),
    {
        match bounce {
            Bounce::Miss => PathStep::End(PathEnd::Sky),
            Bounce::Absorbed => PathStep::End(PathEnd::Black),
            Bounce::Scattered => {
                self.bounces_left = self.bounces_left - 1;
                self.next()
            },
        }
    }
}

/// Driving a path step by step (`next`, then `record` after each traced ray
/// while the step is `Trace`) ends as `path_outcome` says, after the number of
/// rays that it gives.
pub proof fn lemma_steps_follow_outcome(bounces_left: nat, bounces: Seq<Bounce>)
    requires
        step_with(bounces_left) == PathStep::Trace,
        bounces.len() > 0,
    ensures
        ({
            let (left, step) = after_bounce(bounces_left, bounces[0]);
            match step {
                PathStep::End(end) => path_outcome(bounces_left, bounces) == Some((end, 1nat)),
                PathStep::Trace => path_outcome(bounces_left, bounces) == match path_outcome(
                    left,
                    bounces.drop_first(),
                ) {
                    Some((end, traced)) => Some((end, traced + 1)),
                    None => None,
                },
            }
        }),
{
}

/// A path never traces more rays than its bounce budget.
pub proof fn lemma_rays_within_budget(max_bounces: nat, bounces: Seq<Bounce>)
    requires
        path_outcome(max_bounces, bounces) is Some,
    ensures
        path_outcome(max_bounces, bounces).unwrap().1 <= max_bounces,
    decreases bounces.len(),
{
    if max_bounces > 0 && bounces.len() > 0 && bounces[0] == Bounce::Scattered {
        lemma_rays_within_budget((max_bounces - 1) as nat, bounces.drop_first());
    }
}

/// A path whose rays all scatter traces exactly its bounce budget of rays
/// and ends black.
pub proof fn lemma_budget_spent_exactly(max_bounces: nat, bounces: Seq<Bounce>)
    requires
        bounces.len() >= max_bounces,
        forall|i: int| 0 <= i < bounces.len() ==> bounces[i] == Bounce::Scattered,
    ensures
        path_outcome(max_bounces, bounces) == Some((PathEnd::Black, max_bounces)),
    decreases max_bounces,
{
    if max_bounces > 0 {
        let rest = bounces.drop_first();
        assert forall|i: int| 0 <= i < rest.len() implies rest[i] == Bounce::Scattered by {
            assert(rest[i] == bounces[i + 1]);
        }
        lemma_budget_spent_exactly((max_bounces - 1) as nat, rest);
    }
}

/// The ray at `k` is traced within a budget of `max_bounces` rays, every ray
/// before it scattered, and it misses the scene.
pub open spec fn escapes_at(max_bounces: nat, bounces: Seq<Bounce>, k: int) -> bool {
    &&& 0 <= k < max_bounces
    &&& k < bounces.len()
    &&& bounces[k] == Bounce::Miss
    &&& forall|i: int| 0 <= i < k ==> bounces[i] == Bounce::Scattered
}

proof fn lemma_escape_shifts(max_bounces: nat, bounces: Seq<Bounce>, k: int)
    requires
        max_bounces > 0,
        bounces.len() > 0,
        bounces[0] == Bounce::Scattered,
        k >= 0,
    ensures
        escapes_at(max_bounces, bounces, k + 1) == escapes_at(
            (max_bounces - 1) as nat,
            bounces.drop_first(),
            k,
        ),
{
    let rest = bounces.drop_first();
    if escapes_at(max_bounces, bounces, k + 1) {
        assert forall|i: int| 0 <= i < k implies rest[i] == Bounce::Scattered by {
            assert(rest[i] == bounces[i + 1]);
        }
    }
    if escapes_at((max_bounces - 1) as nat, rest, k) {
        assert forall|i: int| 0 <= i < k + 1 implies bounces[i] == Bounce::Scattered by {
            if i > 0 {
                assert(bounces[i] == rest[i - 1]);
            }
        }
    }
}

/// A path sees the sky exactly when, within its budget, its first ray that
/// does not scatter misses the scene.
pub proof fn lemma_sky_iff_escape(max_bounces: nat, bounces: Seq<Bounce>)
    requires
        path_outcome(max_bounces, bounces) is Some,
    ensures
        (path_outcome(max_bounces, bounces).unwrap().0 == PathEnd::Sky) <==> (exists|k: int|
            escapes_at(max_bounces, bounces, k)),
    decreases bounces.len(),
{
    if max_bounces > 0 && bounces.len() > 0 {
        let rest = bounces.drop_first();
        let m = (max_bounces - 1) as nat;
        if bounces[0] == Bounce::Scattered {
            lemma_sky_iff_escape(m, rest);
            assert(!escapes_at(max_bounces, bounces, 0));
            if exists|k: int| escapes_at(max_bounces, bounces, k) {
                let k = choose|k: int| escapes_at(max_bounces, bounces, k);
                lemma_escape_shifts(max_bounces, bounces, k - 1);
            }
            if exists|k: int| escapes_at(m, rest, k) {
                let k = choose|k: int| escapes_at(m, rest, k);
                lemma_escape_shifts(max_bounces, bounces, k);
            }
        } else if bounces[0] == Bounce::Miss {
            assert(escapes_at(max_bounces, bounces, 0));
        } else {
            assert forall|k: int| !escapes_at(max_bounces, bounces, k) by {
                if 0 < k && k < bounces.len() {
                    assert(bounces[0] != Bounce::Scattered);
                }
            }
        }
    } else {
        assert forall|k: int| !escapes_at(max_bounces, bounces, k) by {}
    }
}

} // verus!
