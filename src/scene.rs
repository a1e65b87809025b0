//! The interchangeable scenes and the manager that routes each frame's update
//! to the one that is shown.

use vstd::prelude::*;
use crate::particles::{
    CircularParticles, Particle, stepped, stepped_n, lemma_particle_full_turn,
    ANGULAR_STEP, TURN,
};

verus! {

/// The spectrum bar chart. It keeps no state of its own.
#[derive(Clone, Copy, Debug, PartialEq, Eq, Structural)]
pub struct SimpleSpectrum {}

impl SimpleSpectrum {
    /// Nothing moves in a bar chart between frames.
    pub fn update(&mut self)
        ensures
            *final(self) == *old(self),
    {
    }
}

/// One of the scenes the visualizer can show.
pub enum Scene {
    Particles(CircularParticles),
    Spectrum(SimpleSpectrum),
}

/// What a scene's animation state is.
pub enum SceneState {
    Particles(Seq<Particle>),
    Spectrum,
}

/// A scene's state after one update.
pub open spec fn scene_step(s: SceneState) -> SceneState {
    match s {
        SceneState::Particles(ps) => SceneState::Particles(ps.map_values(|p: Particle| stepped(p))),
        SceneState::Spectrum => SceneState::Spectrum,
    }
}

/// A scene's state after `t` updates.
pub open spec fn scene_step_n(s: SceneState, t: nat) -> SceneState
    decreases t,
{
    if t == 0 {
        s
    } else {
        scene_step(scene_step_n(s, (t - 1) as nat))
    }
}

pub open spec fn scene_state_wf(s: SceneState) -> bool {
    match s {
        SceneState::Particles(ps) => forall|i: int| 0 <= i < ps.len() ==> (#[trigger] ps[i]).wf(),
        SceneState::Spectrum => true,
    }
}

/// `t` updates of a particle ring update each particle `t` times.
pub proof fn lemma_particles_step_n(ps: Seq<Particle>, t: nat)
    ensures
        scene_step_n(SceneState::Particles(ps), t) == SceneState::Particles(
            ps.map_values(|p: Particle| stepped_n(p, t)),
        ),
    decreases t,
{
    if t == 0 {
        assert(ps.map_values(|p: Particle| stepped_n(p, 0)) =~= ps);
    } else {
        lemma_particles_step_n(ps, (t - 1) as nat);
        assert(ps.map_values(|p: Particle| stepped_n(p, (t - 1) as nat)).map_values(
            |p: Particle| stepped(p),
        ) =~= ps.map_values(|p: Particle| stepped_n(p, t)));
    }
}

/// Rotation is periodic: a full turn's worth of updates (the turn divided by
/// the angular step) brings every particle of a ring back to where it started.
pub proof fn lemma_ring_full_turn(ps: Seq<Particle>)
    requires
        forall|i: int| 0 <= i < ps.len() ==> (#[trigger] ps[i]).wf(),
    ensures
        scene_step_n(SceneState::Particles(ps), (TURN / ANGULAR_STEP) as nat)
            == SceneState::Particles(ps),
{
    let t = (TURN / ANGULAR_STEP) as nat;
    lemma_particles_step_n(ps, t);
    assert forall|i: int| 0 <= i < ps.len() implies #[trigger] stepped_n(ps[i], t) == ps[i] by {
        lemma_particle_full_turn(ps[i]);
    }
    assert(ps.map_values(|p: Particle| stepped_n(p, t)) =~= ps);
}

impl Scene {
    /// The scene's animation state.
    pub open spec fn view(&self) -> SceneState {
        match self {
            Scene::Particles(c) => SceneState::Particles(c@),
            Scene::Spectrum(_) => SceneState::Spectrum,
        }
    }

    pub open spec fn wf(&self) -> bool {
        scene_state_wf(self@)
    }

    /// Advances the scene's animation by one tick.
    pub fn update(&mut self)
        requires
            old(self).wf(),
        ensures
            final(self).wf(),
            final(self)@ == scene_step(old(self)@),
    {
        match self {
            Scene::Particles(c) => {
                proof {
                    assert forall|i: int| 0 <= i < c@.len() implies (#[trigger] c@[i]).wf() by {
                        assert(scene_state_wf(SceneState::Particles(c@)));
                    }
                }
                c.update();
            },
            Scene::Spectrum(s) => {
                s.update();
            },
        }
    }
}

/// The manager's state: the scenes' states, in order, and which is shown.
pub struct ManagerState {
    pub scenes: Seq<SceneState>,
    pub current: int,
}

/// The manager's state after one frame: the shown scene alone advances.
pub open spec fn manager_update(m: ManagerState) -> ManagerState {
    ManagerState { scenes: m.scenes.update(m.current, scene_step(m.scenes[m.current])), ..m }
}

/// The manager's state after `t` frames.
pub open spec fn manager_update_n(m: ManagerState, t: nat) -> ManagerState
    decreases t,
{
    if t == 0 {
        m
    } else {
        manager_update(manager_update_n(m, (t - 1) as nat))
    }
}

/// The manager's state after a request to show scene `index`: ignored when
/// there is no such scene.
pub open spec fn manager_select(m: ManagerState, index: int) -> ManagerState {
    if 0 <= index < m.scenes.len() {
        ManagerState { current: index, ..m }
    } else {
        m
    }
}

pub open spec fn manager_wf(m: ManagerState) -> bool {
    0 <= m.current < m.scenes.len()
}

/// `t` frames advance the shown scene `t` times and leave every other scene
/// as it was.
pub proof fn lemma_update_n(m: ManagerState, t: nat)
    requires
        manager_wf(m),
    ensures
        manager_update_n(m, t) == (ManagerState {
            scenes: m.scenes.update(m.current, scene_step_n(m.scenes[m.current], t)),
            ..m
        }),
    decreases t,
{
    if t == 0 {
        assert(m.scenes.update(m.current, m.scenes[m.current]) =~= m.scenes);
    } else {
        lemma_update_n(m, (t - 1) as nat);
        let prev = manager_update_n(m, (t - 1) as nat);
        assert(prev.scenes.update(m.current, scene_step(prev.scenes[m.current])) =~= m.scenes.update(
            m.current,
            scene_step_n(m.scenes[m.current], t),
        ));
    }
}

/// Switching scenes keeps each scene's state: after `t` frames on scene `a`,
/// a switch to `b`, `k` frames there and a switch back, scene `a` stands as
/// after exactly `t` updates, and `b` as after exactly `k`.
pub proof fn lemma_switch_preserves(m: ManagerState, b: int, t: nat, k: nat)
    requires
        manager_wf(m),
        0 <= b < m.scenes.len(),
        b != m.current,
    ensures
        ({
            let a = m.current;
            let end = manager_select(
                manager_update_n(manager_select(manager_update_n(m, t), b), k),
                a,
            );
            &&& end.current == a
            &&& end.scenes.len() == m.scenes.len()
            &&& end.scenes[a] == scene_step_n(m.scenes[a], t)
            &&& end.scenes[b] == scene_step_n(m.scenes[b], k)
            &&& forall|j: int|
                0 <= j < m.scenes.len() && j != a && j != b ==> end.scenes[j] == m.scenes[j]
        }),
{
    let a = m.current;
    lemma_update_n(m, t);
    let m1 = manager_update_n(m, t);
    let m2 = manager_select(m1, b);
    lemma_update_n(m2, k);
}

/// The scene a key asks for: a digit key names the scene of that index;
/// other keys ask for none.
pub open spec fn scene_for_key_spec(key: char) -> Option<nat> {
    if '0' <= key && key <= '9' {
        Some((key as nat - '0' as nat) as nat)
    } else {
        None
    }
}

/// The scene a key asks for: a digit key names the scene of that index;
/// other keys ask for none.
pub fn scene_for_key(key: char) -> (i: Option<usize>)
    ensures
        i matches Some(k) ==> scene_for_key_spec(key) == Some(k as nat),
        i is None ==> scene_for_key_spec(key) is None,
{
    if '0' <= key && key <= '9' {
        Some((key as u32 - '0' as u32) as usize)
    } else {
        None
    }
}

/// The scenes, in order, and the one that is shown.
pub struct SceneManager {
    scenes: Vec<Scene>,
    current: usize,
}

impl SceneManager {
    pub closed spec fn view(&self) -> ManagerState {
        ManagerState { scenes: self.scenes@.map_values(|s: Scene| s@), current: self.current as int }
    }

    /// The shown index is within the scene list, and every scene is well formed.
    pub open spec fn wf(&self) -> bool {
        &&& manager_wf(self@)
        &&& forall|i: int| 0 <= i < self@.scenes.len() ==> scene_state_wf(#[trigger] self@.scenes[i])
    }

    /// A manager over `scenes` that shows the first.
    pub fn new(scenes: Vec<Scene>) -> (m: SceneManager)
        requires
            scenes@.len() > 0,
            forall|i: int| 0 <= i < scenes@.len() ==> (#[trigger] scenes@[i]).wf(),
        ensures
            m.wf(),
            m@ == (ManagerState { scenes: scenes@.map_values(|s: Scene| s@), current: 0 }),
    {
        SceneManager { scenes, current: 0 }
    }

    /// The scenes the visualizer starts with: a ring of `num_particles`
    /// randomly placed particles, shown first, then the spectrum chart.
    pub fn default_scenes(num_particles: usize) -> (m: SceneManager)
        ensures
            m.wf(),
            m@.current == 0,
            m@.scenes.len() == 2,
            m@.scenes[0] matches SceneState::Particles(ps) && ps.len() == num_particles,
            m@.scenes[1] == SceneState::Spectrum,
    {
        let ring = CircularParticles::random(num_particles);
        let mut scenes: Vec<Scene> = Vec::new();
        scenes.push(Scene::Particles(ring));
        scenes.push(Scene::Spectrum(SimpleSpectrum {}));
        SceneManager::new(scenes)
    }

    /// The index of the scene shown.
    pub fn current(&self) -> (i: usize)
        ensures
            i == self@.current,
    {
        self.current
    }

    /// The number of scenes.
    pub fn len(&self) -> (n: usize)
        ensures
            n == self@.scenes.len(),
    {
        self.scenes.len()
    }

    /// The scene shown.
    pub fn active(&self) -> (s: &Scene)
        requires
            self.wf(),
        ensures
            s@ == self@.scenes[self@.current],
    {
        &self.scenes[self.current]
    }

    /// Shows scene `index`; a request for a scene that does not exist is
    /// ignored.
    pub fn select(&mut self, index: usize)
        requires
            old(self).wf(),
        ensures
            final(self).wf(),
            final(self)@ == manager_select(old(self)@, index as int),
    {
        if index < self.scenes.len() {
            self.current = index;
        }
    }

    /// Shows the scene that `key` asks for, if it asks for one that exists.
    pub fn key_pressed(&mut self, key: char)
        requires
            old(self).wf(),
        ensures
            final(self).wf(),
            scene_for_key_spec(key) matches Some(k) ==> final(self)@ == manager_select(
                old(self)@,
                k as int,
            ),
            scene_for_key_spec(key) is None ==> final(self)@ == old(self)@,
    {
        match scene_for_key(key) {
            Some(k) => self.select(k),
            None => {},
        }
    }

    /// Advances the shown scene by one tick; the others stay frozen.
    pub fn update(&mut self)
        requires
            old(self).wf(),
        ensures
            final(self).wf(),
            final(self)@ == manager_update(old(self)@),
    {
        let ghost before = self.scenes@;
        let i = self.current;
        assert(scene_state_wf(self@.scenes[i as int]));
        self.scenes[i].update();
        assert(self.scenes@.map_values(|s: Scene| s@) =~= before.map_values(|s: Scene| s@).update(
            i as int,
            scene_step(before[i as int]@),
        ));
    }
}

} // verus!
