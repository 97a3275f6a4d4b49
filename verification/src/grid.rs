//! Uniform spatial hash grid.
//!
//! Positions are quantized to a cell coordinate by flooring each component's
//! quotient by the cell side. The grid maps each occupied cell to the indices
//! of the particles inside it, in increasing index order. It is derived state:
//! rebuilt once at the start of every step and never read across steps.

use vstd::prelude::*;
use vstd::arithmetic::div_mod::{
    lemma_fundamental_div_mod, lemma_fundamental_div_mod_converse_div,
};
use crate::fx::{Fx, abs_u128, iabs};
use crate::vec2::Vec2D;
use crate::particle::Particle;
use crate::params::Params;

verus! {

/// A uniform grid cell coordinate.
#[derive(Clone, Copy, PartialEq, Eq, Structural, Debug)]
pub struct CellKey {
    pub cx: i64,
    pub cy: i64,
}

/// The cell that holds a position: each component's raw count divided by the
/// cell side, rounded toward negative infinity.
pub open spec fn spec_hash(pos: Vec2D, cell_size: Fx) -> CellKey {
    CellKey {
        cx: (pos.x.raw as int / cell_size.raw as int) as i64,
        cy: (pos.y.raw as int / cell_size.raw as int) as i64,
    }
}

/// The indices among `0 .. n` whose particle hashes to `k`, in increasing
/// order.
pub open spec fn cell_indices(s: Seq<Particle>, params: Params, k: CellKey, n: int) -> Seq<usize>
    decreases n,
{
    if n <= 0 {
        Seq::empty()
    } else {
        let pre = cell_indices(s, params, k, n - 1);
        if spec_hash(s[n - 1].pos, params.cell_size) == k {
            pre.push((n - 1) as usize)
        } else {
            pre
        }
    }
}

proof fn lemma_floor_div_neg(m: int, c: int)
    requires
        m >= 1,
        c >= 1,
    ensures
        (-m) / c == -((m + c - 1) / c),
        (m + c - 1) / c <= m,
{
    let k = m / c;
    let s = m % c;
    lemma_fundamental_div_mod(m, c);
    assert(0 <= s < c);
    if s == 0 {
        assert(-m == (-k) * c + 0) by (nonlinear_arith)
            requires
                m == c * k + 0,
        ;
        lemma_fundamental_div_mod_converse_div(-m, c, -k, 0);
        assert(m + c - 1 == k * c + (c - 1)) by (nonlinear_arith)
            requires
                m == c * k + 0,
        ;
        lemma_fundamental_div_mod_converse_div(m + c - 1, c, k, c - 1);
        assert(k <= m) by (nonlinear_arith)
            requires
                m == c * k,
                m >= 1,
                c >= 1,
        ;
    } else {
        assert(-m == (-k - 1) * c + (c - s)) by (nonlinear_arith)
            requires
                m == c * k + s,
        ;
        lemma_fundamental_div_mod_converse_div(-m, c, -k - 1, c - s);
        assert(m + c - 1 == (k + 1) * c + (s - 1)) by (nonlinear_arith)
            requires
                m == c * k + s,
        ;
        lemma_fundamental_div_mod_converse_div(m + c - 1, c, k + 1, s - 1);
        assert(k + 1 <= m) by (nonlinear_arith)
            requires
                m == c * k + s,
                m >= 1,
                c >= 1,
                0 < s < c,
        ;
    }
}

/// Quotient rounded toward negative infinity, as `f32::floor` rounds.
fn floor_div_i64(v: i64, d: i64) -> (r: i64)
    requires
        d > 0,
    ensures
        r as int == v as int / d as int,
{
    if v >= 0 {
        let q: u128 = (v as u128) / (d as u128);
        q as i64
    } else {
        let m: u128 = abs_u128(v);
        let c: u128 = d as u128;
        let q: u128 = (m + c - 1) / c;
        proof {
            lemma_floor_div_neg(m as int, c as int);
        }
        (-(q as i128)) as i64
    }
}

/// The spatial hash of a particle's position.
pub fn hash_position(p: &Particle, params: &Params) -> (r: CellKey)
    requires
        params.wf(),
    ensures
        r == spec_hash(p.pos, params.cell_size),
{
    CellKey {
        cx: floor_div_i64(p.pos.x.raw, params.cell_size.raw),
        cy: floor_div_i64(p.pos.y.raw, params.cell_size.raw),
    }
}

/// The bucket stored for `k`, or empty if `k` is absent.
pub open spec fn bucket_in(keys: Seq<CellKey>, buckets: Seq<Vec<usize>>, k: CellKey) -> Seq<usize>
    decreases keys.len(),
{
    if keys.len() == 0 || keys.len() != buckets.len() {
        Seq::empty()
    } else if keys[0] == k {
        buckets[0]@
    } else {
        bucket_in(keys.drop_first(), buckets.drop_first(), k)
    }
}

proof fn lemma_bucket_in_at(keys: Seq<CellKey>, buckets: Seq<Vec<usize>>, k: CellKey, i: int)
    requires
        keys.len() == buckets.len(),
        forall|a: int, b: int| 0 <= a < b < keys.len() ==> keys[a] != keys[b],
        0 <= i < keys.len(),
        keys[i] == k,
    ensures
        bucket_in(keys, buckets, k) == buckets[i]@,
    decreases keys.len(),
{
    if keys[0] == k {
        assert(i == 0);
    } else {
        lemma_bucket_in_at(keys.drop_first(), buckets.drop_first(), k, i - 1);
    }
}

proof fn lemma_bucket_in_absent(keys: Seq<CellKey>, buckets: Seq<Vec<usize>>, k: CellKey)
    requires
        keys.len() == buckets.len(),
        forall|a: int| 0 <= a < keys.len() ==> keys[a] != k,
    ensures
        bucket_in(keys, buckets, k) == Seq::<usize>::empty(),
    decreases keys.len(),
{
    if keys.len() != 0 {
        lemma_bucket_in_absent(keys.drop_first(), buckets.drop_first(), k);
    }
}

/// Maps each occupied cell to the indices of the particles inside it.
pub struct SpatialGrid {
    pub keys: Vec<CellKey>,
    pub buckets: Vec<Vec<usize>>,
}

impl SpatialGrid {
    /// One bucket per stored key, and no key stored twice.
    pub open spec fn wf(self) -> bool {
        &&& self.keys@.len() == self.buckets@.len()
        &&& forall|a: int, b: int|
            0 <= a < b < self.keys@.len() ==> self.keys@[a] != self.keys@[b]
    }

    /// The indices stored for cell `k`; empty when the cell is unoccupied.
    pub open spec fn spec_bucket(self, k: CellKey) -> Seq<usize> {
        bucket_in(self.keys@, self.buckets@, k)
    }

    /// An empty grid.
    pub fn new() -> (g: SpatialGrid)
        ensures
            g.wf(),
            forall|k: CellKey| #[trigger] g.spec_bucket(k) == Seq::<usize>::empty(),
    {
        let g = SpatialGrid { keys: Vec::new(), buckets: Vec::new() };
        proof {
            assert forall|k: CellKey| #[trigger] g.spec_bucket(k) == Seq::<usize>::empty() by {
                lemma_bucket_in_absent(g.keys@, g.buckets@, k);
            }
        }
        g
    }

    /// Where `k` is stored, if anywhere.
    fn find(&self, k: CellKey) -> (r: Option<usize>)
        ensures
            match r {
                Some(i) => i < self.keys@.len() && self.keys@[i as int] == k,
                None => forall|a: int| 0 <= a < self.keys@.len() ==> self.keys@[a] != k,
            },
    {
        let mut i: usize = 0;
        while i < self.keys.len()
            invariant
                i <= self.keys@.len(),
                forall|a: int| 0 <= a < i ==> self.keys@[a] != k,
            decreases self.keys@.len() - i,
        {
            if self.keys[i] == k {
                return Some(i);
            }
            i = i + 1;
        }
        None
    }

    /// The bucket for cell `k`: the particle indices inside that cell, in
    /// increasing order, or `None` when the cell is unoccupied.
    pub fn neighbors_of(&self, k: CellKey) -> (r: Option<&Vec<usize>>)
        requires
            self.wf(),
        ensures
            match r {
                Some(v) => v@ == self.spec_bucket(k),
                None => self.spec_bucket(k) == Seq::<usize>::empty(),
            },
    {
        match self.find(k) {
            Some(i) => {
                proof {
                    lemma_bucket_in_at(self.keys@, self.buckets@, k, i as int);
                }
                Some(&self.buckets[i])
            },
            None => {
                proof {
                    lemma_bucket_in_absent(self.keys@, self.buckets@, k);
                }
                None
            },
        }
    }
}

/// Builds the grid for the given particles: every particle index lands in
/// exactly the bucket of its position's cell, in increasing index order.
pub fn build_spatial_map(particles: &Vec<Particle>, params: &Params) -> (g: SpatialGrid)
    requires
        params.wf(),
    ensures
        g.wf(),
        forall|k: CellKey| #[trigger] g.spec_bucket(k) == cell_indices(
            particles@,
            *params,
            k,
            particles@.len() as int,
        ),
{
    let mut g = SpatialGrid::new();
    let mut idx: usize = 0;
    proof {
        assert forall|k: CellKey| #[trigger] g.spec_bucket(k) == cell_indices(
            particles@,
            *params,
            k,
            0,
        ) by {
            assert(cell_indices(particles@, *params, k, 0) == Seq::<usize>::empty());
        }
    }
    while idx < particles.len()
        invariant
            params.wf(),
            idx <= particles@.len(),
            g.wf(),
            forall|k: CellKey| #[trigger] g.spec_bucket(k) == cell_indices(
                particles@,
                *params,
                k,
                idx as int,
            ),
        decreases particles@.len() - idx,
    {
        let key = hash_position(&particles[idx], params);
        let ghost old_g = g;
        match g.find(key) {
            Some(i) => {
                let mut b = g.buckets.remove(i);
                b.push(idx);
                g.buckets.insert(i, b);
                proof {
                    assert(g.keys@ == old_g.keys@);
                    assert(g.buckets@ =~= old_g.buckets@.update(i as int, g.buckets@[i as int]));
                    assert(g.buckets@[i as int]@ == old_g.buckets@[i as int]@.push(idx));
                }
            },
            None => {
                g.keys.push(key);
                let mut b: Vec<usize> = Vec::new();
                b.push(idx);
                g.buckets.push(b);
                proof {
                    assert(g.keys@ == old_g.keys@.push(key));
                    assert(g.buckets@.len() == old_g.buckets@.len() + 1);
                    assert(forall|a: int| 0 <= a < old_g.keys@.len() ==> old_g.keys@[a] != key);
                    assert(g.wf());
                }
            },
        }
        proof {
            assert forall|k: CellKey| #[trigger] g.spec_bucket(k) == cell_indices(
                particles@,
                *params,
                k,
                idx + 1,
            ) by {
                assert(old_g.spec_bucket(k) == cell_indices(particles@, *params, k, idx as int));
                assert(cell_indices(particles@, *params, k, idx + 1) == (if spec_hash(
                    particles@[idx as int].pos,
                    params.cell_size,
                ) == k {
                    cell_indices(particles@, *params, k, idx as int).push(idx)
                } else {
                    cell_indices(particles@, *params, k, idx as int)
                }));
                if k == key {
                    if exists|j: int| 0 <= j < old_g.keys@.len() && old_g.keys@[j] == k {
                        let j = choose|j: int|
                            0 <= j < old_g.keys@.len() && old_g.keys@[j] == k;
                        lemma_bucket_in_at(old_g.keys@, old_g.buckets@, k, j);
                        lemma_bucket_in_at(g.keys@, g.buckets@, k, j);
                        assert(g.buckets@[j]@ == old_g.buckets@[j]@.push(idx));
                    } else {
                        lemma_bucket_in_absent(old_g.keys@, old_g.buckets@, k);
                        lemma_bucket_in_at(g.keys@, g.buckets@, k, g.keys@.len() - 1);
                        assert(g.buckets@[g.keys@.len() - 1]@ =~= Seq::<usize>::empty().push(
                            idx,
                        ));
                    }
                } else {
                    if exists|j: int| 0 <= j < old_g.keys@.len() && old_g.keys@[j] == k {
                        let j = choose|j: int|
                            0 <= j < old_g.keys@.len() && old_g.keys@[j] == k;
                        lemma_bucket_in_at(old_g.keys@, old_g.buckets@, k, j);
                        lemma_bucket_in_at(g.keys@, g.buckets@, k, j);
                        assert(g.buckets@[j] == old_g.buckets@[j]);
                    } else {
                        lemma_bucket_in_absent(old_g.keys@, old_g.buckets@, k);
                        lemma_bucket_in_absent(g.keys@, g.buckets@, k);
                    }
                }
            }
        }
        idx = idx + 1;
    }
    g
}


/// Every index a bucket holds is in range, and buckets are strictly
/// increasing: an index appears at most once, in insertion order.
pub proof fn lemma_cell_indices_bounds(s: Seq<Particle>, params: Params, k: CellKey, n: int)
    requires
        n <= usize::MAX,
    ensures
        forall|a: int|
            0 <= a < cell_indices(s, params, k, n).len() ==> (cell_indices(s, params, k, n)[a]
                as int) < n,
        forall|a: int, b: int|
            0 <= a < b < cell_indices(s, params, k, n).len() ==> (cell_indices(s, params, k, n)[a]
                as int) < (cell_indices(s, params, k, n)[b] as int),
    decreases n,
{
    if n > 0 {
        lemma_cell_indices_bounds(s, params, k, n - 1);
        let pre = cell_indices(s, params, k, n - 1);
        let post = cell_indices(s, params, k, n);
        if spec_hash(s[n - 1].pos, params.cell_size) == k {
            assert(post == pre.push((n - 1) as usize));
            assert forall|a: int| 0 <= a < post.len() implies (post[a] as int) < n by {
                if a < pre.len() {
                    assert(post[a] == pre[a]);
                }
            }
            assert forall|a: int, b: int| 0 <= a < b < post.len() implies (post[a] as int) < (
            post[b] as int) by {
                if b < pre.len() {
                    assert(post[a] == pre[a] && post[b] == pre[b]);
                } else {
                    assert(post[b] as int == n - 1);
                    assert(post[a] == pre[a]);
                }
            }
        }
    }
}

/// The grid's content depends only on the particles' positions.
pub proof fn lemma_cell_indices_same_pos(
    s1: Seq<Particle>,
    s2: Seq<Particle>,
    params: Params,
    k: CellKey,
    n: int,
)
    requires
        s1.len() == s2.len(),
        forall|i: int| 0 <= i < s1.len() ==> (#[trigger] s1[i]).pos == s2[i].pos,
        n <= s1.len(),
    ensures
        cell_indices(s1, params, k, n) == cell_indices(s2, params, k, n),
    decreases n,
{
    if n > 0 {
        lemma_cell_indices_same_pos(s1, s2, params, k, n - 1);
    }
}

} // verus!

