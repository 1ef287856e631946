use pso::fitness::order_key;
use pso::swarm::{check_configuration, first_best, Swarm, SwarmError};

fn rastrigin(xs: &[f64]) -> f64 {
    let a = 10.0;
    a * xs.len() as f64
        + xs.iter()
            .map(|x| x * x - a * (2.0 * std::f64::consts::PI * x).cos())
            .sum::<f64>()
}

fn key(xs: &[f64]) -> u64 {
    order_key(rastrigin(xs).to_bits())
}

/// A small reproducible generator of draws in [0, 1).
struct Lcg(u64);

impl Lcg {
    fn unit(&mut self) -> f64 {
        self.0 = self.0.wrapping_mul(6364136223846793005).wrapping_add(1442695040888963407);
        (self.0 >> 11) as f64 / (1u64 << 53) as f64
    }
}

fn build(seed: u64, lower: f64, upper: f64, dim: usize, size: usize) -> (Swarm<f64>, Lcg) {
    let mut rng = Lcg(seed);
    let x: Vec<f64> = (0..dim * size).map(|_| lower + (upper - lower) * rng.unit()).collect();
    let span = upper - lower;
    let v: Vec<f64> = (0..dim * size).map(|_| -span + 2.0 * span * rng.unit()).collect();
    let keys: Vec<u64> = (0..size).map(|i| key(&x[i * dim..(i + 1) * dim])).collect();
    (Swarm::new(x, v, keys, dim, size, 0.5, 0.8, 0.9), rng)
}

fn tick(s: &mut Swarm<f64>, rng: &mut Lcg) {
    let dim = s.dim();
    for i in 0..s.size() {
        let mut xs = Vec::new();
        let mut vs = Vec::new();
        for d in 0..dim {
            let rp = rng.unit();
            let rg = rng.unit();
            let idx = i * dim + d;
            let x = s.positions()[idx];
            let v = s.inertia() * s.velocities()[idx]
                + s.personal_attraction() * rp * (s.personal_bests()[idx] - x)
                + s.global_attraction() * rg * (s.global_best()[d] - x);
            vs.push(v);
            xs.push(x + v);
        }
        let k = key(&xs);
        s.advance_particle(i, &xs, &vs, k);
    }
}

#[test]
fn configuration_accepts_valid() {
    assert_eq!(check_configuration((-5.12f64).to_bits(), 5.12f64.to_bits(), 2, 3), Ok(()));
}

#[test]
fn configuration_rejects_each_fault() {
    let lo = (-5.12f64).to_bits();
    let hi = 5.12f64.to_bits();
    assert_eq!(check_configuration(hi, lo, 2, 3), Err(SwarmError::InvalidConfiguration));
    assert_eq!(check_configuration(lo, lo, 2, 3), Err(SwarmError::InvalidConfiguration));
    assert_eq!(check_configuration(lo, hi, 0, 3), Err(SwarmError::InvalidConfiguration));
    assert_eq!(check_configuration(lo, hi, 2, 0), Err(SwarmError::InvalidConfiguration));
}

#[test]
fn first_best_keeps_earliest_tie() {
    assert_eq!(first_best(&vec![3, 1, 1, 2]), 1);
    assert_eq!(first_best(&vec![7]), 0);
    assert_eq!(first_best(&vec![4, 4, 4]), 0);
    assert_eq!(first_best(&vec![9, 8, 7, 0]), 3);
}

#[test]
fn new_seeds_bests_from_positions() {
    let x = vec![1.0, 1.0, 0.5, 0.0, 0.0, 0.0, 0.0, 0.0];
    let v = vec![0.1, 0.2, 0.3, 0.4, 0.5, 0.6, 0.7, 0.8];
    let keys = vec![key(&x[0..2]), key(&x[2..4]), key(&x[4..6]), key(&x[6..8])];
    let s = Swarm::new(x.clone(), v.clone(), keys.clone(), 2, 4, 0.5, 0.5, 0.5);
    assert_eq!(s.positions(), &x);
    assert_eq!(s.velocities(), &v);
    assert_eq!(s.personal_bests(), &x);
    // particles 2 and 3 both sit at the minimum; the earlier one wins
    assert_eq!(s.global_best(), &vec![0.0, 0.0]);
    assert_eq!(s.global_best_key(), keys[2]);
    assert_eq!(s.global_best_key(), order_key(0.0f64.to_bits()));
    for i in 0..4 {
        assert!(s.global_best_key() <= s.personal_best_key(i));
    }
}

#[test]
fn advance_with_new_global_best() {
    let x = vec![2.0, 1.0];
    let keys = vec![key(&x[0..1]), key(&x[1..2])];
    let mut s = Swarm::new(x, vec![0.0, 0.0], keys, 1, 2, 0.5, 0.5, 0.5);
    assert_eq!(s.global_best(), &vec![1.0]);
    s.advance_particle(0, &vec![0.0], &vec![-2.0], key(&[0.0]));
    assert_eq!(s.positions(), &vec![0.0, 1.0]);
    assert_eq!(s.velocities(), &vec![-2.0, 0.0]);
    assert_eq!(s.personal_bests(), &vec![0.0, 1.0]);
    assert_eq!(s.global_best(), &vec![0.0]);
    assert_eq!(s.global_best_key(), key(&[0.0]));
}

#[test]
fn advance_with_personal_best_only() {
    let x = vec![0.5, 0.0];
    let keys = vec![key(&x[0..1]), key(&x[1..2])];
    let mut s = Swarm::new(x, vec![0.0, 0.0], keys, 1, 2, 0.5, 0.5, 0.5);
    s.advance_particle(0, &vec![1.0], &vec![0.5], key(&[1.0]));
    assert_eq!(s.personal_bests(), &vec![1.0, 0.0]);
    assert_eq!(s.personal_best_key(0), key(&[1.0]));
    assert_eq!(s.global_best(), &vec![0.0]);
}

#[test]
fn advance_without_improvement_moves_only() {
    let x = vec![1.0, 0.0];
    let keys = vec![key(&x[0..1]), key(&x[1..2])];
    let mut s = Swarm::new(x, vec![0.0, 0.0], keys, 1, 2, 0.5, 0.5, 0.5);
    // an equal key is no improvement
    s.advance_particle(0, &vec![-1.0], &vec![-2.0], key(&[-1.0]));
    assert_eq!(s.positions(), &vec![-1.0, 0.0]);
    assert_eq!(s.personal_bests(), &vec![1.0, 0.0]);
    s.advance_particle(0, &vec![0.5], &vec![1.5], key(&[0.5]));
    assert_eq!(s.positions(), &vec![0.5, 0.0]);
    assert_eq!(s.personal_bests(), &vec![1.0, 0.0]);
    assert_eq!(s.personal_best_key(0), key(&[1.0]));
}

#[test]
fn ticks_never_worsen_bests() {
    let (mut s, mut rng) = build(7, -5.12, 5.12, 3, 6);
    for _ in 0..50 {
        let before_p: Vec<u64> = (0..6).map(|i| s.personal_best_key(i)).collect();
        let before_g = s.global_best_key();
        tick(&mut s, &mut rng);
        assert_eq!(s.positions().len(), 18);
        assert_eq!(s.global_best().len(), 3);
        for i in 0..6 {
            assert!(s.personal_best_key(i) <= before_p[i]);
            assert!(s.global_best_key() <= s.personal_best_key(i));
            let p = &s.personal_bests()[i * 3..(i + 1) * 3];
            assert_eq!(key(p), s.personal_best_key(i));
        }
        assert!(s.global_best_key() <= before_g);
        assert_eq!(key(s.global_best()), s.global_best_key());
    }
}

#[test]
fn identical_runs_are_identical() {
    let (mut a, mut ra) = build(42, -5.12, 5.12, 2, 5);
    let (mut b, mut rb) = build(42, -5.12, 5.12, 2, 5);
    for _ in 0..20 {
        tick(&mut a, &mut ra);
        tick(&mut b, &mut rb);
    }
    assert_eq!(a.positions(), b.positions());
    assert_eq!(a.velocities(), b.velocities());
    assert_eq!(a.personal_bests(), b.personal_bests());
    assert_eq!(a.global_best(), b.global_best());
}

#[test]
fn zero_draws_converge() {
    let x = vec![1.5, -2.5];
    let v = vec![0.8, -0.4];
    let keys = vec![key(&x)];
    let mut s = Swarm::new(x, v, keys, 2, 1, 0.5, 0.5, 0.5);
    for _ in 0..60 {
        let mut xs = Vec::new();
        let mut vs = Vec::new();
        for d in 0..2 {
            let v = s.inertia() * s.velocities()[d];
            vs.push(v);
            xs.push(s.positions()[d] + v);
        }
        let k = key(&xs);
        s.advance_particle(0, &xs, &vs, k);
    }
    assert!((s.positions()[0] - 2.3).abs() < 1e-9);
    assert!((s.positions()[1] - (-2.9)).abs() < 1e-9);
    assert!(s.velocities()[0].abs() < 1e-9);
}
