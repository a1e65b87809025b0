//! The particle-ring scene: particles on circles round the origin that turn a
//! fixed step each tick, one of them picked out by the dominant frequency.
//!
//! Angles are counted in units of one 62800th of a full turn, so that a step
//! of 100 units is close to 0.01 radians and 628 steps make a full turn.

use vstd::prelude::*;

verus! {

/// Angle units in a full turn.
pub const TURN: u32 = 62800;

/// Angle units a particle turns by on each update.
pub const ANGULAR_STEP: u32 = 100;

/// Base draw radius of a particle, in pixels.
pub const BASE_RADIUS: u32 = 10;

/// Nearest distance from the origin, in pixels.
pub const MIN_DISTANCE: u32 = 100;

/// Spread of distances above the nearest, in pixels; the farthest is one
/// pixel short of the nearest plus the spread.
pub const DISTANCE_SPREAD: u32 = 250;

/// Least brightness, in percent.
pub const MIN_LIGHTNESS: u32 = 10;

/// Spread of brightness above the least, in percent; full brightness is
/// never reached.
pub const LIGHTNESS_SPREAD: u32 = 90;

/// One particle of the ring.
#[derive(Clone, Copy, Debug, PartialEq, Eq, Structural)]
pub struct Particle {
    /// Distance from the origin, in pixels; fixed.
    pub distance: u32,
    /// Angular position, in angle units below a full turn.
    pub theta: u32,
    /// Base draw radius, in pixels.
    pub radius: u32,
    /// Brightness, in percent; fixed.
    pub lightness: u32,
}

/// The angle after one update from `theta`.
pub open spec fn advance(theta: nat) -> nat {
    ((theta + ANGULAR_STEP) % (TURN as int)) as nat
}

/// The angle after `t` updates from `theta`.
pub open spec fn advance_n(theta: nat, t: nat) -> nat
    decreases t,
{
    if t == 0 {
        theta
    } else {
        advance(advance_n(theta, (t - 1) as nat))
    }
}

/// A particle after one update: only its angle moves.
pub open spec fn stepped(p: Particle) -> Particle {
    Particle { theta: advance(p.theta as nat) as u32, ..p }
}

/// The particle built from three random words.
pub open spec fn particle_from_draw(d: (u32, u32, u32)) -> Particle {
    Particle {
        lightness: (MIN_LIGHTNESS + d.0 % LIGHTNESS_SPREAD) as u32,
        distance: (MIN_DISTANCE + d.1 % DISTANCE_SPREAD) as u32,
        theta: d.2 % TURN,
        radius: BASE_RADIUS,
    }
}

/// Whether some three random words give particle `p`.
pub open spec fn is_drawn(p: Particle) -> bool {
    exists|d: (u32, u32, u32)| #[trigger] particle_from_draw(d) == p
}

/// After `t` updates the angle has moved `t` steps round the circle.
pub proof fn lemma_advance_n(theta: nat, t: nat)
    requires
        theta < TURN,
    ensures
        advance_n(theta, t) == (theta + t * ANGULAR_STEP) % (TURN as int),
    decreases t,
{
    if t > 0 {
        lemma_advance_n(theta, (t - 1) as nat);
        let a = theta + (t - 1) * ANGULAR_STEP;
        assert(theta + t * ANGULAR_STEP == a + ANGULAR_STEP) by (nonlinear_arith)
            requires
                a == theta + (t - 1) * ANGULAR_STEP,
                t > 0,
        ;
        vstd::arithmetic::div_mod::lemma_add_mod_noop(a as int, ANGULAR_STEP as int, TURN as int);
        vstd::arithmetic::div_mod::lemma_mod_twice(a as int, TURN as int);
        
    }
}

/// Rotation is periodic: a full turn's worth of updates brings every angle
/// back exactly where it started.
pub proof fn lemma_full_turn(theta: nat)
    requires
        theta < TURN,
    ensures
        advance_n(theta, (TURN / ANGULAR_STEP) as nat) == theta,
{
    lemma_advance_n(theta, (TURN / ANGULAR_STEP) as nat);
    assert(theta + (TURN / ANGULAR_STEP) as nat * ANGULAR_STEP == theta + TURN * 1);
    vstd::arithmetic::div_mod::lemma_mod_multiples_vanish(1, theta as int, TURN as int);
    
}

/// A particle after `t` updates.
pub open spec fn stepped_n(p: Particle, t: nat) -> Particle
    decreases t,
{
    if t == 0 {
        p
    } else {
        stepped(stepped_n(p, (t - 1) as nat))
    }
}

/// `t` updates move a particle's angle `t` steps and change nothing else.
pub proof fn lemma_stepped_n(p: Particle, t: nat)
    requires
        p.wf(),
    ensures
        stepped_n(p, t) == (Particle { theta: advance_n(p.theta as nat, t) as u32, ..p }),
        stepped_n(p, t).wf(),
    decreases t,
{
    if t > 0 {
        lemma_stepped_n(p, (t - 1) as nat);
    }
}

/// A full turn's worth of updates brings a particle back to where it started.
pub proof fn lemma_particle_full_turn(p: Particle)
    requires
        p.wf(),
    ensures
        stepped_n(p, (TURN / ANGULAR_STEP) as nat) == p,
{
    lemma_stepped_n(p, (TURN / ANGULAR_STEP) as nat);
    lemma_full_turn(p.theta as nat);
}

impl Particle {
    pub open spec fn wf(&self) -> bool {
        self.theta < TURN
    }

    /// The particle that three random words give: brightness from the first,
    /// distance from the second, angle from the third.
    pub fn from_draw(d: (u32, u32, u32)) -> (p: Particle)
        ensures
            p == particle_from_draw(d),
            p.wf(),
            MIN_LIGHTNESS <= p.lightness < MIN_LIGHTNESS + LIGHTNESS_SPREAD,
            MIN_DISTANCE <= p.distance < MIN_DISTANCE + DISTANCE_SPREAD,
            p.radius == BASE_RADIUS,
    {
        Particle {
            lightness: MIN_LIGHTNESS + d.0 % LIGHTNESS_SPREAD,
            distance: MIN_DISTANCE + d.1 % DISTANCE_SPREAD,
            theta: d.2 % TURN,
            radius: BASE_RADIUS,
        }
    }

    pub fn get_theta(&self) -> (t: u32)
        ensures
            t == self.theta,
    {
        self.theta
    }

    pub fn set_theta(&mut self, theta: u32)
        ensures
            *final(self) == (Particle { theta, ..*old(self) }),
    {
        self.theta = theta;
    }

    /// Turns the particle one step round the circle.
    pub fn step(&mut self)
        requires
            old(self).wf(),
        ensures
            *final(self) == stepped(*old(self)),
            final(self).wf(),
    {
        let theta = (self.get_theta() + ANGULAR_STEP) % TURN;
        self.set_theta(theta);
    }
}

/// Relies on `rand::random`, as re-exported by nannou: a uniformly drawn
/// word. Nothing is known of its value.
#[verifier::external_body]
fn random_word() -> (w: u32) {
    nannou::rand::random::<u32>()
}

/// The ring of particles.
pub struct CircularParticles {
    particles: Vec<Particle>,
}

/// Which particle a dominant frequency (whole hertz) picks out among `count`.
pub open spec fn highlight_of(max_frequency: nat, count: nat) -> Option<nat> {
    if count == 0 {
        None
    } else {
        Some(max_frequency % count)
    }
}

impl CircularParticles {
    /// The particles, in order.
    pub closed spec fn view(&self) -> Seq<Particle> {
        self.particles@
    }

    pub open spec fn wf(&self) -> bool {
        forall|i: int| 0 <= i < self@.len() ==> (#[trigger] self@[i]).wf()
    }

    /// A ring with one particle for each triple of random words, in order.
    pub fn new(draws: &Vec<(u32, u32, u32)>) -> (c: CircularParticles)
        ensures
            c.wf(),
            c@ == draws@.map_values(|d: (u32, u32, u32)| particle_from_draw(d)),
    {
        let mut particles: Vec<Particle> = Vec::new();
        let mut i: usize = 0;
        while i < draws.len()
            invariant
                i <= draws@.len(),
                particles@ == draws@.take(i as int).map_values(
                    |d: (u32, u32, u32)| particle_from_draw(d),
                ),
            decreases draws.len() - i,
        {
            particles.push(Particle::from_draw(draws[i]));
            assert(draws@.take(i + 1).map_values(|d: (u32, u32, u32)| particle_from_draw(d))
                =~= draws@.take(i as int).map_values(|d: (u32, u32, u32)| particle_from_draw(d)).push(
                particle_from_draw(draws@[i as int]),
            ));
            i = i + 1;
        }
        assert(draws@.take(draws@.len() as int) =~= draws@);
        CircularParticles { particles }
    }

    /// A ring of `count` particles placed from fresh random words.
    pub fn random(count: usize) -> (c: CircularParticles)
        ensures
            c.wf(),
            c@.len() == count,
            forall|i: int| 0 <= i < count ==> is_drawn(#[trigger] c@[i]),
    {
        let mut draws: Vec<(u32, u32, u32)> = Vec::new();
        let mut i: usize = 0;
        while i < count
            invariant
                i <= count,
                draws@.len() == i,
            decreases count - i,
        {
            let lightness = random_word();
            let distance = random_word();
            let theta = random_word();
            draws.push((lightness, distance, theta));
            i = i + 1;
        }
        let c = CircularParticles::new(&draws);
        assert forall|i: int| 0 <= i < count implies is_drawn(#[trigger] c@[i]) by {
            assert(particle_from_draw(draws@[i]) == c@[i]);
        }
        c
    }

    /// The particles, in order.
    pub fn particles(&self) -> (ps: &Vec<Particle>)
        ensures
            ps@ == self@,
    {
        &self.particles
    }

    /// Turns every particle one step round the circle.
    pub fn update(&mut self)
        requires
            old(self).wf(),
        ensures
            final(self).wf(),
            final(self)@ == old(self)@.map_values(|p: Particle| stepped(p)),
    {
        let ghost start = self@;
        let n = self.particles.len();
        let mut i: usize = 0;
        while i < n
            invariant
                n == start.len(),
                i <= n,
                self@.len() == n,
                forall|j: int| 0 <= j < n ==> (#[trigger] start[j]).wf(),
                forall|j: int| 0 <= j < i ==> #[trigger] self@[j] == stepped(start[j]),
                forall|j: int| i <= j < n ==> #[trigger] self@[j] == start[j],
            decreases n - i,
        {
            let mut p = self.particles[i];
            p.step();
            self.particles.set(i, p);
            i = i + 1;
        }
        assert(self@ =~= start.map_values(|p: Particle| stepped(p)));
    }

    /// The index of the particle drawn larger this frame: the dominant
    /// frequency, in whole hertz, modulo the number of particles. `None` when
    /// the ring is empty.
    pub fn highlighted(&self, max_frequency: u64) -> (i: Option<usize>)
        ensures
            i matches Some(k) ==> highlight_of(max_frequency as nat, self@.len()) == Some(k as nat),
            i is None ==> highlight_of(max_frequency as nat, self@.len()) is None,
    {
        let n = self.particles.len();
        if n == 0 {
            None
        } else {
            Some((max_frequency % (n as u64)) as usize)
        }
    }
}

} // verus!
