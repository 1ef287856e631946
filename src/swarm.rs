//! The state of a particle swarm and the two operations that change it:
//! building it from drawn positions, and moving one particle, which keeps the
//! personal and global bests up to date.
//!
//! Coordinates are of any copyable type `T`; the library only moves them. The
//! arithmetic that produces new positions and velocities, and the objective
//! that scores them, stay with the caller, who hands in each score as an order
//! key (see `fitness`).
use vstd::prelude::*;

use crate::fitness::{bounds_valid, is_nan, rank};

verus! {

/// Why a swarm could not be built.
#[derive(Debug, Clone, Copy, PartialEq, Eq, Structural)]
pub enum SwarmError {
    /// The bounds are not ordered, or the dimension or the population is zero.
    InvalidConfiguration,
}

/// `s` with `part` written over it from index `start` on.
pub open spec fn splice<T>(s: Seq<T>, start: int, part: Seq<T>) -> Seq<T> {
    s.subrange(0, start) + part + s.subrange(start + part.len(), s.len() as int)
}

/// The coordinates of particle `i` in a particle-major sequence.
pub open spec fn particle<T>(s: Seq<T>, dim: nat, i: int) -> Seq<T> {
    s.subrange(i * dim, (i + 1) * dim)
}

/// `b` is the first index at which `keys` takes its least value.
pub open spec fn is_first_min(keys: Seq<u64>, b: int) -> bool {
    &&& 0 <= b < keys.len()
    &&& forall|j: int| 0 <= j < keys.len() ==> keys[b] <= #[trigger] keys[j]
    &&& forall|j: int| 0 <= j < b ==> keys[b] < #[trigger] keys[j]
}

/// What a swarm holds, as mathematical values.
pub struct SwarmModel<T> {
    pub size: nat,
    pub dim: nat,
    /// Positions, particle-major.
    pub x: Seq<T>,
    /// Velocities, particle-major.
    pub v: Seq<T>,
    /// Personal best positions, particle-major.
    pub p: Seq<T>,
    /// Global best position.
    pub g: Seq<T>,
    /// The key of each particle's personal best.
    pub p_key: Seq<u64>,
    /// The key of the global best.
    pub g_key: u64,
    /// Inertia weight.
    pub w: T,
    /// Attraction towards the personal best.
    pub cp: T,
    /// Attraction towards the global best.
    pub cg: T,
}

impl<T> SwarmModel<T> {
    pub open spec fn well_formed(self) -> bool {
        &&& self.size > 0
        &&& self.dim > 0
        &&& self.x.len() == self.size * self.dim
        &&& self.v.len() == self.size * self.dim
        &&& self.p.len() == self.size * self.dim
        &&& self.g.len() == self.dim
        &&& self.p_key.len() == self.size
        &&& forall|i: int| 0 <= i < self.size ==> self.g_key <= #[trigger] self.p_key[i]
        &&& exists|j: int|
            0 <= j < self.size && self.p_key[j] == self.g_key && #[trigger] particle(
                self.p,
                self.dim,
                j,
            ) == self.g
    }

    /// The state after particle `i` moved to `xs` with velocity `vs`, its new
    /// position having key `key`.
    pub open spec fn advanced(self, i: int, xs: Seq<T>, vs: Seq<T>, key: u64) -> SwarmModel<T> {
        let start = i * self.dim;
        let improved = key < self.p_key[i];
        let leads = improved && key < self.g_key;
        SwarmModel {
            x: splice(self.x, start, xs),
            v: splice(self.v, start, vs),
            p: if improved {
                splice(self.p, start, xs)
            } else {
                self.p
            },
            p_key: if improved {
                self.p_key.update(i, key)
            } else {
                self.p_key
            },
            g: if leads {
                xs
            } else {
                self.g
            },
            g_key: if leads {
                key
            } else {
                self.g_key
            },
            ..self
        }
    }
}

/// A swarm of `size` particles in `dim` dimensions.
pub struct Swarm<T> {
    size: usize,
    dim: usize,
    x: Vec<T>,
    v: Vec<T>,
    p: Vec<T>,
    g: Vec<T>,
    p_key: Vec<u64>,
    g_key: u64,
    w: T,
    cp: T,
    cg: T,
}

impl<T> View for Swarm<T> {
    type V = SwarmModel<T>;

    closed spec fn view(&self) -> SwarmModel<T> {
        SwarmModel {
            size: self.size as nat,
            dim: self.dim as nat,
            x: self.x@,
            v: self.v@,
            p: self.p@,
            g: self.g@,
            p_key: self.p_key@,
            g_key: self.g_key,
            w: self.w,
            cp: self.cp,
            cg: self.cg,
        }
    }
}

proof fn lemma_particle_in_bounds(i: int, size: int, dim: int)
    requires
        0 <= i < size,
        0 <= dim,
    ensures
        0 <= i * dim,
        i * dim + dim == (i + 1) * dim,
        (i + 1) * dim <= size * dim,
{
    assert(0 <= i * dim) by (nonlinear_arith)
        requires
            0 <= i,
            0 <= dim,
    ;
    assert((i + 1) * dim <= size * dim) by (nonlinear_arith)
        requires
            i + 1 <= size,
            0 <= dim,
    ;
    assert(i * dim + dim == (i + 1) * dim) by (nonlinear_arith);
}

/// The coordinates of two different particles do not overlap.
proof fn lemma_particles_apart(i: int, j: int, dim: int, k: int)
    requires
        0 <= i,
        0 <= j,
        i != j,
        0 <= k < dim,
    ensures
        j * dim + k < i * dim || i * dim + dim <= j * dim + k,
{
    if j < i {
        assert(j * dim + dim <= i * dim) by (nonlinear_arith)
            requires
                j + 1 <= i,
                0 <= dim,
        ;
    } else {
        assert(i * dim + dim <= j * dim) by (nonlinear_arith)
            requires
                i + 1 <= j,
                0 <= dim,
        ;
    }
}

/// Moving one particle keeps a swarm well formed and never raises a personal
/// best's key or the global best's key.
pub proof fn lemma_advance_never_worsens<T>(
    before: SwarmModel<T>,
    i: int,
    xs: Seq<T>,
    vs: Seq<T>,
    key: u64,
)
    requires
        before.well_formed(),
        0 <= i < before.size,
        xs.len() == before.dim,
        vs.len() == before.dim,
    ensures
        ({
            let after = before.advanced(i, xs, vs, key);
            &&& after.well_formed()
            &&& after.size == before.size
            &&& after.dim == before.dim
            &&& forall|j: int|
                0 <= j < before.size ==> #[trigger] after.p_key[j] <= before.p_key[j]
            &&& after.g_key <= before.g_key
        }),
{
    let after = before.advanced(i, xs, vs, key);
    let dim = before.dim;
    lemma_particle_in_bounds(i, before.size as int, dim as int);
    let improved = key < before.p_key[i];
    let leads = improved && key < before.g_key;
    assert(after.x.len() == before.x.len());
    assert(after.v.len() == before.v.len());
    assert(after.p.len() == before.p.len());
    if leads {
        assert(particle(after.p, dim, i) =~= xs);
        assert(after.p_key[i] == after.g_key);
    } else {
        let j = choose|j: int|
            0 <= j < before.size && before.p_key[j] == before.g_key && #[trigger] particle(
                before.p,
                before.dim,
                j,
            ) == before.g;
        if improved {
            assert(j != i);
            lemma_particle_in_bounds(j, before.size as int, dim as int);
            assert forall|k: int| 0 <= k < dim implies #[trigger] particle(after.p, dim, j)[k]
                == particle(before.p, dim, j)[k] by {
                lemma_particles_apart(i, j, dim as int, k);
                assert(particle(after.p, dim, j)[k] == after.p[j * dim + k]);
                assert(particle(before.p, dim, j)[k] == before.p[j * dim + k]);
            }
            assert(particle(after.p, dim, j) =~= particle(before.p, dim, j));
        }
        assert(particle(after.p, dim, j) == after.g);
        assert(after.p_key[j] == after.g_key);
    }
    assert(after.p_key.len() == before.size);
    assert(after.g.len() == dim);
    assert forall|k: int| 0 <= k < before.size implies after.g_key <= #[trigger] after.p_key[k]
        && after.p_key[k] <= before.p_key[k] by {}
    assert(after.size > 0 && after.dim > 0);
    assert(after.x.len() == after.size * after.dim);
    assert(after.v.len() == after.size * after.dim);
    assert(after.p.len() == after.size * after.dim);
    assert(exists|j: int|
        0 <= j < after.size && after.p_key[j] == after.g_key && #[trigger] particle(
            after.p,
            after.dim,
            j,
        ) == after.g);
}

/// The state after particles `0, 1, ..., moves.len() - 1` moved in that order,
/// particle `i` as `moves[i]` gives: its position, its velocity and the key of
/// its position. A move sees the global best that earlier moves left.
pub open spec fn advanced_in_order<T>(s: SwarmModel<T>, moves: Seq<(Seq<T>, Seq<T>, u64)>) -> SwarmModel<
    T,
>
    decreases moves.len(),
{
    if moves.len() == 0 {
        s
    } else {
        let i = moves.len() - 1;
        advanced_in_order(s, moves.drop_last()).advanced(i, moves[i].0, moves[i].1, moves[i].2)
    }
}

/// A tick, every particle moved once in index order, keeps the swarm well
/// formed with its sizes, never raises any particle's personal best key, and
/// never raises the global best key.
pub proof fn lemma_tick_never_worsens<T>(s: SwarmModel<T>, moves: Seq<(Seq<T>, Seq<T>, u64)>)
    requires
        s.well_formed(),
        moves.len() <= s.size,
        forall|i: int|
            0 <= i < moves.len() ==> (#[trigger] moves[i]).0.len() == s.dim && moves[i].1.len()
                == s.dim,
    ensures
        ({
            let r = advanced_in_order(s, moves);
            &&& r.well_formed()
            &&& r.size == s.size
            &&& r.dim == s.dim
            &&& r.x.len() == s.size * s.dim
            &&& forall|j: int| 0 <= j < s.size ==> #[trigger] r.p_key[j] <= s.p_key[j]
            &&& r.g_key <= s.g_key
        }),
    decreases moves.len(),
{
    if moves.len() > 0 {
        let i = moves.len() - 1;
        let rest = moves.drop_last();
        assert forall|k: int| 0 <= k < rest.len() implies (#[trigger] rest[k]).0.len() == s.dim
            && rest[k].1.len() == s.dim by {
            assert(rest[k] == moves[k]);
        }
        lemma_tick_never_worsens(s, rest);
        let mid = advanced_in_order(s, rest);
        assert(moves[i].0.len() == s.dim && moves[i].1.len() == s.dim);
        lemma_advance_never_worsens(mid, i, moves[i].0, moves[i].1, moves[i].2);
        let r = mid.advanced(i, moves[i].0, moves[i].1, moves[i].2);
        assert forall|j: int| 0 <= j < s.size implies #[trigger] r.p_key[j] <= s.p_key[j] by {
            assert(r.p_key[j] <= mid.p_key[j]);
            assert(mid.p_key[j] <= s.p_key[j]);
        }
    }
}

/// In a well-formed swarm the global best is the personal best of some
/// particle, and its key is the least of all personal best keys.
pub proof fn lemma_global_best_is_least<T>(s: SwarmModel<T>)
    requires
        s.well_formed(),
    ensures
        forall|i: int| 0 <= i < s.size ==> s.g_key <= #[trigger] s.p_key[i],
        exists|j: int|
            0 <= j < s.size && s.p_key[j] == s.g_key && #[trigger] particle(s.p, s.dim, j) == s.g,
{
}

/// The particle that seeds the global best of a new swarm is determined by
/// the keys alone: there is at most one first least index.
pub proof fn lemma_first_min_unique(keys: Seq<u64>, a: int, b: int)
    requires
        is_first_min(keys, a),
        is_first_min(keys, b),
    ensures
        a == b,
{
    if a < b {
        assert(keys[b] < keys[a]);
        assert(keys[a] <= keys[b]);
    } else if b < a {
        assert(keys[a] < keys[b]);
        assert(keys[b] <= keys[a]);
    }
}

/// A copy of `src[start..start + len]`.
fn copy_range<T: Copy>(src: &Vec<T>, start: usize, len: usize) -> (out: Vec<T>)
    requires
        start + len <= src.len(),
    ensures
        out@ == src@.subrange(start as int, start + len),
{
    let mut out: Vec<T> = Vec::new();
    let mut k: usize = 0;
    while k < len
        invariant
            k <= len,
            start + len <= src.len(),
            out@ == src@.subrange(start as int, start + k),
        decreases len - k,
    {
        out.push(src[start + k]);
        k = k + 1;
        assert(out@ =~= src@.subrange(start as int, start + k));
    }
    out
}

/// Writes `part` over `dst` from index `start` on.
fn write_range<T: Copy>(dst: &mut Vec<T>, start: usize, part: &Vec<T>)
    requires
        start + part.len() <= old(dst).len(),
    ensures
        final(dst)@ == splice(old(dst)@, start as int, part@),
{
    let ghost before = dst@;
    let total = dst.len();
    let mut k: usize = 0;
    while k < part.len()
        invariant
            k <= part.len(),
            start + part.len() <= before.len(),
            dst@.len() == before.len(),
            before.len() == total,
            forall|j: int|
                0 <= j < dst@.len() ==> #[trigger] dst@[j] == if start <= j < start + k {
                    part@[j - start]
                } else {
                    before[j]
                },
        decreases part.len() - k,
    {
        dst[start + k] = part[k];
        k = k + 1;
    }
    assert(dst@ =~= splice(before, start as int, part@));
}

/// The index of the first least key: the particle that seeds the global best.
pub fn first_best(keys: &Vec<u64>) -> (b: usize)
    requires
        keys.len() > 0,
    ensures
        is_first_min(keys@, b as int),
{
    let mut b: usize = 0;
    let mut i: usize = 1;
    while i < keys.len()
        invariant
            0 <= b < i <= keys.len(),
            forall|j: int| 0 <= j < i ==> keys@[b as int] <= #[trigger] keys@[j],
            forall|j: int| 0 <= j < b ==> keys@[b as int] < #[trigger] keys@[j],
        decreases keys.len() - i,
    {
        if keys[i] < keys[b] {
            b = i;
        }
        i = i + 1;
    }
    b
}

/// Checks the configuration of a swarm: the bounds are binary64 bit patterns,
/// neither NaN, with `lower` strictly below `upper`, and the dimension and the
/// population are positive.
pub fn check_configuration(lower: u64, upper: u64, dim: usize, size: usize) -> (r: Result<
    (),
    SwarmError,
>)
    ensures
        r is Ok <==> (!is_nan(lower) && !is_nan(upper) && rank(lower) < rank(upper) && dim > 0
            && size > 0),
{
    if bounds_valid(lower, upper) && dim > 0 && size > 0 {
        Ok(())
    } else {
        Err(SwarmError::InvalidConfiguration)
    }
}

impl<T: Copy> Swarm<T> {
    pub open spec fn wf(&self) -> bool {
        self@.well_formed()
    }

    /// Builds a swarm from drawn positions `x` and velocities `v`, both
    /// particle-major, where `keys[i]` is the key of particle `i`'s position.
    /// Every particle's personal best is its position, and the global best is
    /// the position of the first particle with the least key.
    pub fn new(
        x: Vec<T>,
        v: Vec<T>,
        keys: Vec<u64>,
        dim: usize,
        size: usize,
        w: T,
        cp: T,
        cg: T,
    ) -> (r: Swarm<T>)
        requires
            dim > 0,
            size > 0,
            x.len() == size * dim,
            v.len() == size * dim,
            keys.len() == size,
        ensures
            r.wf(),
            r@.size == size,
            r@.dim == dim,
            r@.x == x@,
            r@.v == v@,
            r@.p == x@,
            r@.p_key == keys@,
            r@.w == w,
            r@.cp == cp,
            r@.cg == cg,
            exists|b: int|
                is_first_min(keys@, b) && r@.g == particle(x@, dim as nat, b) && r@.g_key
                    == keys@[b],
            forall|i: int| 0 <= i < size ==> r@.g_key <= #[trigger] r@.p_key[i],
    {
        let b = first_best(&keys);
        proof {
            lemma_particle_in_bounds(b as int, size as int, dim as int);
        }
        let g = copy_range(&x, b * dim, dim);
        let p = copy_range(&x, 0, x.len());
        assert(p@ =~= x@);
        let g_key = keys[b];
        let r = Swarm { size, dim, x, v, p, g, p_key: keys, g_key, w, cp, cg };
        assert(particle(r@.p, r@.dim, b as int) == r@.g);
        r
    }

    /// Moves particle `i` to `xs` with velocity `vs`, where `key` is the key of
    /// `xs`. A strictly lower key than the particle's personal best makes `xs`
    /// its personal best, and then, if also strictly lower than the global best,
    /// the global best.
    pub fn advance_particle(&mut self, i: usize, xs: &Vec<T>, vs: &Vec<T>, key: u64)
        requires
            old(self).wf(),
            i < old(self)@.size,
            xs.len() == old(self)@.dim,
            vs.len() == old(self)@.dim,
        ensures
            final(self).wf(),
            final(self)@ == old(self)@.advanced(i as int, xs@, vs@, key),
            forall|j: int|
                0 <= j < old(self)@.size ==> #[trigger] final(self)@.p_key[j] <= old(
                    self,
                )@.p_key[j],
            final(self)@.g_key <= old(self)@.g_key,
    {
        let ghost before = self@;
        proof {
            lemma_particle_in_bounds(i as int, self.size as int, self.dim as int);
        }
        let n = self.x.len();
        let start = i * self.dim;
        write_range(&mut self.x, start, xs);
        write_range(&mut self.v, start, vs);
        if key < self.p_key[i] {
            write_range(&mut self.p, start, xs);
            self.p_key.set(i, key);
            if key < self.g_key {
                self.g = copy_range(xs, 0, xs.len());
                self.g_key = key;
                assert(self.g@ =~= xs@);
            }
        }
        proof {
            lemma_advance_never_worsens(before, i as int, xs@, vs@, key);
        }
    }

    /// The positions, particle-major: `size * dim` values.
    pub fn positions(&self) -> (r: &Vec<T>)
        requires
            self.wf(),
        ensures
            r@ == self@.x,
            r.len() == self@.size * self@.dim,
    {
        &self.x
    }

    /// The velocities, particle-major.
    pub fn velocities(&self) -> (r: &Vec<T>)
        ensures
            r@ == self@.v,
    {
        &self.v
    }

    /// The personal best positions, particle-major.
    pub fn personal_bests(&self) -> (r: &Vec<T>)
        ensures
            r@ == self@.p,
    {
        &self.p
    }

    /// The global best position.
    pub fn global_best(&self) -> (r: &Vec<T>)
        ensures
            r@ == self@.g,
    {
        &self.g
    }

    /// The key of particle `i`'s personal best.
    pub fn personal_best_key(&self, i: usize) -> (r: u64)
        requires
            self.wf(),
            i < self@.size,
        ensures
            r == self@.p_key[i as int],
    {
        self.p_key[i]
    }

    /// The key of the global best.
    pub fn global_best_key(&self) -> (r: u64)
        ensures
            r == self@.g_key,
    {
        self.g_key
    }

    pub fn size(&self) -> (r: usize)
        ensures
            r == self@.size,
    {
        self.size
    }

    pub fn dim(&self) -> (r: usize)
        ensures
            r == self@.dim,
    {
        self.dim
    }

    /// The inertia weight.
    pub fn inertia(&self) -> (r: T)
        ensures
            r == self@.w,
    {
        self.w
    }

    /// The attraction towards the personal best.
    pub fn personal_attraction(&self) -> (r: T)
        ensures
            r == self@.cp,
    {
        self.cp
    }

    /// The attraction towards the global best.
    pub fn global_attraction(&self) -> (r: T)
        ensures
            r == self@.cg,
    {
        self.cg
    }
}

} // verus!
