use vstd::prelude::*;

verus! {

/// What became of a ray that was cast into the world.
#[derive(Clone, Copy, Debug, PartialEq, Eq, Structural)]
pub enum Bounce {
    /// The ray met no surface.
    Miss,
    /// The ray met a surface whose material swallowed it.
    Absorbed,
    /// The ray met a surface whose material sent it on.
    Scattered,
}

/// The light that a path brings back to the camera.
#[derive(Clone, Copy, Debug, PartialEq, Eq, Structural)]
pub enum Radiance {
    /// No light.
    Black,
    /// The sky in the direction of the last ray, attenuated by the surfaces
    /// of the first `bounces` hits of the path.
    Sky { bounces: u32 },
}

/// A path under way: how many more rays may be cast, and how many surfaces
/// have scattered the path so far.
#[derive(Clone, Copy, Debug, PartialEq, Eq, Structural)]
pub struct Estimator {
    pub remaining: u32,
    pub bounces: u32,
}

/// What to do next on a path.
#[derive(Clone, Copy, Debug, PartialEq, Eq, Structural)]
pub enum Action {
    /// The path has ended with this light.
    Done(Radiance),
    /// Cast the current ray and report what became of it.
    Cast(Estimator),
}

/// `light` with `by` more surfaces between it and the camera. Black stays
/// black whatever attenuates it.
pub open spec fn attenuated(light: Option<Radiance>, by: u32) -> Option<Radiance> {
    match light {
        Some(Radiance::Sky { bounces }) => Some(Radiance::Sky { bounces: (bounces + by) as u32 }),
        other => other,
    }
}

/// The light of a path of at most `depth` rays whose rays fare as `path`
/// says, one entry for each ray cast. With no ray left the light is black; a
/// ray that misses brings the sky; an absorbed ray brings nothing; a
/// scattered ray brings the light of the rest of the path, attenuated once.
/// `None` where `path` ends before the light is decided.
pub open spec fn radiance(depth: u32, path: Seq<Bounce>) -> Option<Radiance>
    decreases depth,
{
    if depth == 0 {
        Some(Radiance::Black)
    } else if path.len() == 0 {
        None
    } else {
        match path[0] {
            Bounce::Miss => Some(Radiance::Sky { bounces: 0 }),
            Bounce::Absorbed => Some(Radiance::Black),
            Bounce::Scattered => attenuated(radiance((depth - 1) as u32, path.skip(1)), 1),
        }
    }
}

impl Estimator {
    /// At least one more ray may be cast, and the count of bounces cannot
    /// overflow before the rays run out.
    pub open spec fn wf(&self) -> bool {
        self.remaining > 0 && self.bounces + self.remaining <= u32::MAX
    }

    /// Begins a path of at most `max_depth` rays.
    pub fn start(max_depth: u32) -> (action: Action)
        ensures
            max_depth == 0 ==> action == Action::Done(Radiance::Black),
            max_depth > 0 ==> action == Action::Cast(
                Estimator { remaining: max_depth, bounces: 0 },
            ),
            action matches Action::Cast(next) ==> next.wf(),
    {
        if max_depth == 0 {
            Action::Done(Radiance::Black)
        } else {
            Action::Cast(Estimator { remaining: max_depth, bounces: 0 })
        }
    }

    /// Takes in what became of the ray that was cast.
    pub fn react(self, bounce: Bounce) -> (action: Action)
        requires
            self.wf(),
        ensures
            bounce == Bounce::Miss ==> action == Action::Done(
                Radiance::Sky { bounces: self.bounces },
            ),
            bounce == Bounce::Absorbed ==> action == Action::Done(Radiance::Black),
            bounce == Bounce::Scattered && self.remaining == 1 ==> action == Action::Done(
                Radiance::Black,
            ),
            bounce == Bounce::Scattered && self.remaining > 1 ==> action == Action::Cast(
                Estimator {
                    remaining: (self.remaining - 1) as u32,
                    bounces: (self.bounces + 1) as u32,
                },
            ),
            action matches Action::Cast(next) ==> next.wf(),
            forall|rest: Seq<Bounce>|
                self.after(#[trigger] seq![bounce].add(rest)) == match action {
                    Action::Done(light) => Some(light),
                    Action::Cast(next) => next.after(rest),
                },
    {
        let action = match bounce {
            Bounce::Miss => Action::Done(Radiance::Sky { bounces: self.bounces }),
            Bounce::Absorbed => Action::Done(Radiance::Black),
            Bounce::Scattered => {
                if self.remaining == 1 {
                    Action::Done(Radiance::Black)
                } else {
                    Action::Cast(
                        Estimator { remaining: self.remaining - 1, bounces: self.bounces + 1 },
                    )
                }
            },
        };
        proof {
            assert forall|rest: Seq<Bounce>|
                self.after(#[trigger] seq![bounce].add(rest)) == match action {
                    Action::Done(light) => Some(light),
                    Action::Cast(next) => next.after(rest),
                } by {
                self.lemma_after_step(bounce, rest);
            }
        }
        action
    }

    /// The light that the path brings back if its coming rays fare as `rest`
    /// says.
    pub open spec fn after(&self, rest: Seq<Bounce>) -> Option<Radiance> {
        attenuated(radiance(self.remaining, rest), self.bounces)
    }

    /// One step of a path: what `after` is of a first ray and the rest.
    pub proof fn lemma_after_step(&self, bounce: Bounce, rest: Seq<Bounce>)
        requires
            self.wf(),
        ensures
            self.after(seq![bounce].add(rest)) == match bounce {
                Bounce::Miss => Some(Radiance::Sky { bounces: self.bounces }),
                Bounce::Absorbed => Some(Radiance::Black),
                Bounce::Scattered => if self.remaining == 1 {
                    Some(Radiance::Black)
                } else {
                    (Estimator {
                        remaining: (self.remaining - 1) as u32,
                        bounces: (self.bounces + 1) as u32,
                    }).after(rest)
                },
            },
    {
        let path = seq![bounce].add(rest);
        assert(path[0] == bounce);
        assert(path.skip(1) =~= rest);
        lemma_bounces_below_depth((self.remaining - 1) as u32, rest);
    }
}

/// A path that brings the sky was scattered fewer times than it had rays.
pub proof fn lemma_bounces_below_depth(depth: u32, path: Seq<Bounce>)
    ensures
        radiance(depth, path) matches Some(Radiance::Sky { bounces }) ==> bounces < depth,
    decreases depth,
{
    if depth > 0 && path.len() > 0 {
        lemma_bounces_below_depth((depth - 1) as u32, path.skip(1));
    }
}

/// A path with an entry for each ray that it may cast has its light decided.
pub proof fn lemma_radiance_decided(depth: u32, path: Seq<Bounce>)
    requires
        path.len() >= depth,
    ensures
        radiance(depth, path) is Some,
    decreases depth,
{
    if depth > 0 {
        lemma_radiance_decided((depth - 1) as u32, path.skip(1));
    }
}

/// With a single ray allowed, a path whose first ray is scattered brings no
/// light: the scattered ray may not be cast.
pub proof fn lemma_depth_one_scatter_is_black(path: Seq<Bounce>)
    requires
        path.len() > 0,
        path[0] == Bounce::Scattered,
    ensures
        radiance(1, path) == Some(Radiance::Black),
{
    assert(radiance(0, path.skip(1)) == Some(Radiance::Black));
}

/// The first `n` rays of `path` are all scattered.
pub open spec fn scattered_run(path: Seq<Bounce>, n: int) -> bool {
    0 <= n <= path.len() && forall|i: int| 0 <= i < n ==> path[i] == Bounce::Scattered
}

/// A path whose rays are scattered until none may be cast brings no light.
pub proof fn lemma_exhausted_depth_is_black(depth: u32, path: Seq<Bounce>)
    requires
        scattered_run(path, depth as int),
    ensures
        radiance(depth, path) == Some(Radiance::Black),
    decreases depth,
{
    if depth > 0 {
        let rest = path.skip(1);
        assert(scattered_run(rest, depth - 1)) by {
            assert forall|i: int| 0 <= i < depth - 1 implies rest[i] == Bounce::Scattered by {
                assert(rest[i] == path[i + 1]);
            }
        }
        lemma_exhausted_depth_is_black((depth - 1) as u32, rest);
    }
}

/// A path brings the sky exactly where a ray misses after fewer scattered
/// rays than the path may cast, and the sky is attenuated once for each of
/// them.
pub proof fn lemma_sky_after_scattered_run(depth: u32, path: Seq<Bounce>, n: u32)
    ensures
        radiance(depth, path) == Some(Radiance::Sky { bounces: n }) <==> n < depth && n
            < path.len() && scattered_run(path, n as int) && path[n as int] == Bounce::Miss,
    decreases depth,
{
    if depth > 0 && path.len() > 0 {
        let rest = path.skip(1);
        if path[0] == Bounce::Scattered {
            lemma_bounces_below_depth((depth - 1) as u32, rest);
            if n > 0 {
                lemma_sky_after_scattered_run((depth - 1) as u32, rest, (n - 1) as u32);
                if scattered_run(path, n as int) && n < path.len() {
                    assert forall|i: int| 0 <= i < n - 1 implies rest[i] == Bounce::Scattered by {
                        assert(rest[i] == path[i + 1]);
                    }
                    assert(rest[n - 1] == path[n as int]);
                }
                if scattered_run(rest, n - 1) && n - 1 < rest.len() {
                    assert forall|i: int| 0 <= i < n implies path[i] == Bounce::Scattered by {
                        if i > 0 {
                            assert(rest[i - 1] == path[i]);
                        }
                    }
                    assert(rest[n - 1] == path[n as int]);
                }
            }
        } else if n > 0 {
            assert(!scattered_run(path, n as int));
        }
    }
}

/// Once the light of a path is decided, rays that follow change nothing.
pub proof fn lemma_decided_ignores_the_rest(depth: u32, path: Seq<Bounce>, more: Seq<Bounce>)
    requires
        radiance(depth, path) is Some,
    ensures
        radiance(depth, path + more) == radiance(depth, path),
    decreases depth,
{
    if depth > 0 {
        assert(path.len() > 0);
        assert((path + more)[0] == path[0]);
        assert((path + more).skip(1) =~= path.skip(1) + more);
        if path[0] == Bounce::Scattered {
            lemma_decided_ignores_the_rest((depth - 1) as u32, path.skip(1), more);
        }
    }
}

/// With no ray allowed every path is black.
pub proof fn lemma_depth_zero_is_black(path: Seq<Bounce>)
    ensures
        radiance(0, path) == Some(Radiance::Black),
{
}

/// Follows a path of at most `max_depth` rays whose rays fare as `path`
/// says, and returns the light it brings back; `None` where `path` ends
/// before the light is decided.
pub fn ray_color(max_depth: u32, path: &Vec<Bounce>) -> (light: Option<Radiance>)
    ensures
        light == radiance(max_depth, path@),
{
    let mut state = match Estimator::start(max_depth) {
        Action::Done(light) => {
            return Some(light);
        },
        Action::Cast(state) => state,
    };
    let mut i: usize = 0;
    proof {
        assert(path@.skip(0) =~= path@);
    }
    while i < path.len()
        invariant
            i <= path.len(),
            state.wf(),
            radiance(max_depth, path@) == state.after(path@.skip(i as int)),
        decreases path.len() - i,
    {
        proof {
            assert(path@.skip(i as int) =~= seq![path@[i as int]].add(path@.skip(i + 1)));
        }
        match state.react(path[i]) {
            Action::Done(light) => {
                return Some(light);
            },
            Action::Cast(next) => {
                state = next;
            },
        }
        i += 1;
    }
    proof {
        assert(path@.skip(i as int).len() == 0);
    }
    None
}

} // verus!
