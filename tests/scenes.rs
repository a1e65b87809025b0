use visualizer::particles::{CircularParticles, Particle, ANGULAR_STEP, TURN};
use visualizer::scene::{scene_for_key, Scene, SceneManager, SimpleSpectrum};

fn ring(thetas: &[u32]) -> CircularParticles {
    let draws: Vec<(u32, u32, u32)> = thetas.iter().map(|t| (0, 0, *t)).collect();
    CircularParticles::new(&draws)
}

fn thetas(c: &CircularParticles) -> Vec<u32> {
    c.particles().iter().map(|p| p.theta).collect()
}

fn shown_thetas(m: &SceneManager) -> Vec<u32> {
    match m.active() {
        Scene::Particles(c) => thetas(c),
        Scene::Spectrum(_) => vec![],
    }
}

#[test]
fn particle_from_draw_ranges() {
    let p = Particle::from_draw((95, 300, 62805));
    assert_eq!(p.lightness, 10 + 95 % 90);
    assert_eq!(p.distance, 100 + 300 % 250);
    assert_eq!(p.theta, 5);
    assert_eq!(p.radius, 10);
    let q = Particle::from_draw((0, 0, 0));
    assert_eq!((q.lightness, q.distance, q.theta), (10, 100, 0));
}

#[test]
fn particle_from_draw_stays_below_top_of_range() {
    let p = Particle::from_draw((90, 250, 0));
    assert_eq!((p.lightness, p.distance), (10, 100));
    let q = Particle::from_draw((89, 249, 62799));
    assert_eq!((q.lightness, q.distance, q.theta), (99, 349, 62799));
    let r = Particle::from_draw((u32::MAX, u32::MAX, u32::MAX));
    assert!(r.lightness < 100 && r.distance < 350 && r.theta < TURN);
}

#[test]
fn random_ring_has_particles_in_range() {
    let c = CircularParticles::random(100);
    assert_eq!(c.particles().len(), 100);
    for p in c.particles() {
        assert!(p.lightness >= 10 && p.lightness < 100);
        assert!(p.distance >= 100 && p.distance < 350);
        assert!(p.theta < TURN);
        assert_eq!(p.radius, 10);
    }
}

#[test]
fn default_scenes_start_with_the_ring() {
    let m = SceneManager::default_scenes(100);
    assert_eq!(m.len(), 2);
    assert_eq!(m.current(), 0);
    match m.active() {
        Scene::Particles(c) => assert_eq!(c.particles().len(), 100),
        Scene::Spectrum(_) => panic!("the ring is shown first"),
    }
    let mut m = m;
    m.select(1);
    assert!(matches!(m.active(), Scene::Spectrum(_)));
}

#[test]
fn new_makes_one_particle_per_draw() {
    let c = CircularParticles::new(&vec![(1, 2, 3), (4, 5, 6)]);
    assert_eq!(c.particles().len(), 2);
    assert_eq!(c.particles()[1], Particle { distance: 105, theta: 6, radius: 10, lightness: 14 });
}

#[test]
fn update_turns_each_particle_one_step() {
    let mut c = ring(&[0, 62750, 62799]);
    c.update();
    assert_eq!(thetas(&c), vec![100, 50, 99]);
}

#[test]
fn full_turn_returns_to_start() {
    let start = [0, 17, 31415, 62799];
    let mut c = ring(&start);
    for _ in 0..(TURN / ANGULAR_STEP) {
        c.update();
    }
    assert_eq!(thetas(&c), start.to_vec());
}

#[test]
fn set_and_get_theta() {
    let mut p = Particle::from_draw((0, 0, 0));
    p.set_theta(1234);
    assert_eq!(p.get_theta(), 1234);
    p.step();
    assert_eq!(p.get_theta(), 1334);
}

#[test]
fn highlighted_particle_follows_max_frequency() {
    let c = ring(&vec![0u32; 100]);
    let max_frequency: f32 = 305.7;
    assert_eq!(c.highlighted(max_frequency as u64), Some(5));
    assert_eq!(c.highlighted(99), Some(99));
    assert_eq!(c.highlighted(100), Some(0));
}

#[test]
fn no_particle_highlighted_in_empty_ring() {
    let c = ring(&[]);
    assert_eq!(c.highlighted(305), None);
}

#[test]
fn digit_keys_name_scenes() {
    assert_eq!(scene_for_key('0'), Some(0));
    assert_eq!(scene_for_key('1'), Some(1));
    assert_eq!(scene_for_key('9'), Some(9));
    assert_eq!(scene_for_key('a'), None);
    assert_eq!(scene_for_key(' '), None);
}

#[test]
fn select_out_of_range_is_ignored() {
    let mut m = SceneManager::new(vec![
        Scene::Particles(ring(&[0])),
        Scene::Spectrum(SimpleSpectrum {}),
    ]);
    assert_eq!(m.current(), 0);
    assert_eq!(m.len(), 2);
    m.select(1);
    assert_eq!(m.current(), 1);
    m.select(2);
    assert_eq!(m.current(), 1);
    m.key_pressed('0');
    assert_eq!(m.current(), 0);
    m.key_pressed('7');
    assert_eq!(m.current(), 0);
    m.key_pressed('x');
    assert_eq!(m.current(), 0);
}

#[test]
fn switching_scenes_freezes_the_hidden_one() {
    let mut m = SceneManager::new(vec![
        Scene::Particles(ring(&[0, 1000])),
        Scene::Spectrum(SimpleSpectrum {}),
    ]);
    for _ in 0..3 {
        m.update();
    }
    m.key_pressed('1');
    for _ in 0..50 {
        m.update();
    }
    m.key_pressed('0');
    assert_eq!(shown_thetas(&m), vec![300, 1300]);
    m.update();
    assert_eq!(shown_thetas(&m), vec![400, 1400]);
}

#[test]
fn only_the_shown_ring_moves() {
    let mut m = SceneManager::new(vec![
        Scene::Particles(ring(&[0])),
        Scene::Particles(ring(&[500])),
    ]);
    m.update();
    m.select(1);
    m.update();
    m.update();
    assert_eq!(shown_thetas(&m), vec![700]);
    m.select(0);
    assert_eq!(shown_thetas(&m), vec![100]);
}
