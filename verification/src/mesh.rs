//! The simplification engine: mesh storage, per-vertex quadric bookkeeping,
//! candidate-edge generation, the priority-ordered collapse loop, and final
//! compaction into a dense output mesh.

use vstd::prelude::*;

use crate::fx::FX_HALF;
use crate::fx::FX_ONE;
use crate::fx::fx_add_spec;
use crate::fx::fx_mul_spec;
use crate::fx::fx_neg;
use crate::fx::fx_neg_spec;
use crate::fx::fx_sub_spec;
use crate::mat::Mat;
use crate::mat::checked_inverse_seq;
use crate::mat::col_dot_seq;
use crate::mat::col_dot_spec;
use crate::mat::id_spec;
use crate::mat::mat_seq;
use crate::mat::split_seq;
use crate::mat::quad_eval_seq;
use crate::mat::quad_eval_spec;
use crate::vct::Vct;
use crate::vct::dot_spec;
use crate::vct::is_fx_sqrt;

verus! {

/// A triangle: three indices into the vertex-position array.
pub type Tri = (usize, usize, usize);

/// The single fatal input error: a triangle index out of range of the
/// position array.
#[derive(Clone, Copy, Debug, PartialEq, Eq, Structural)]
pub enum SimplifyError {
    InvalidInputTopology,
}

/// A candidate edge collapse: the two endpoints, their combined quadric,
/// the chosen merge point, and its cost.
#[derive(Clone, Copy, Debug)]
pub struct Edge {
    pub v1: usize,
    pub v2: usize,
    pub qv: Mat,
    pub v: Vct,
    pub cost: i64,
}

impl Edge {
    pub fn new(v1: usize, v2: usize, qv: Mat, v: Vct, cost: i64) -> (r: Self)
        ensures
            r.v1 == v1,
            r.v2 == v2,
            r.qv == qv,
            r.v == v,
            r.cost == cost,
    {
        Self { v1, v2, qv, v, cost }
    }
}

/// A pending queue entry: the cost of a candidate and its index in the
/// candidate array.
#[derive(Clone, Copy, Debug, PartialEq, Eq, Structural)]
pub struct State {
    pub cost: i64,
    pub index: usize,
}

impl State {
    pub fn new(cost: i64, index: usize) -> (r: Self)
        ensures
            r.cost == cost,
            r.index == index,
    {
        Self { cost, index }
    }
}

/// An in-memory mesh: a dense array of vertex positions and a dense array
/// of triangles indexing it.
#[derive(Clone, Debug)]
pub struct Mesh {
    pub pos: Vec<Vct>,
    pub tri: Vec<Tri>,
}

pub open spec fn in_tri(t: Tri, v: int) -> bool {
    t.0 == v || t.1 == v || t.2 == v
}

/// The index `i` occurs in the list `l`.
pub open spec fn list_has(l: Seq<usize>, i: int) -> bool {
    exists|k: int| 0 <= k < l.len() && l[k] == i
}

pub open spec fn tri_in_range(t: Tri, n: int) -> bool {
    t.0 < n && t.1 < n && t.2 < n
}

impl Mesh {
    /// Every triangle indexes inside the position array.
    pub open spec fn wf(self) -> bool {
        forall|i: int|
            0 <= i < self.tri@.len() ==> tri_in_range(self.tri@[i], self.pos@.len() as int)
    }

    pub fn new(pos: Vec<Vct>, tri: Vec<Tri>) -> (r: Self)
        ensures
            r.pos == pos,
            r.tri == tri,
    {
        Self { pos, tri }
    }

    /// Decides well-formedness of the input topology.
    pub fn check_topology(&self) -> (r: bool)
        ensures
            r == self.wf(),
    {
        let n = self.pos.len();
        let mut i: usize = 0;
        while i < self.tri.len()
            invariant
                i <= self.tri@.len(),
                n == self.pos@.len(),
                forall|k: int| 0 <= k < i ==> tri_in_range(self.tri@[k], n as int),
            decreases self.tri@.len() - i,
        {
            let t = self.tri[i];
            if t.0 >= n || t.1 >= n || t.2 >= n {
                return false;
            }
            i = i + 1;
        }
        true
    }
}

/// Componentwise difference of two vectors, as `Vct::sub` computes it.
pub open spec fn sub_vec_spec(a: Vct, b: Vct) -> Vct {
    Vct {
        x: fx_sub_spec(a.x as int, b.x as int) as i64,
        y: fx_sub_spec(a.y as int, b.y as int) as i64,
        z: fx_sub_spec(a.z as int, b.z as int) as i64,
    }
}

/// Cross product of two vectors, as `Vct::cross` computes it.
pub open spec fn cross_spec(a: Vct, b: Vct) -> Vct {
    Vct {
        x: fx_sub_spec(
            fx_mul_spec(a.y as int, b.z as int),
            fx_mul_spec(a.z as int, b.y as int),
        ) as i64,
        y: fx_sub_spec(
            fx_mul_spec(a.z as int, b.x as int),
            fx_mul_spec(a.x as int, b.z as int),
        ) as i64,
        z: fx_sub_spec(
            fx_mul_spec(a.x as int, b.y as int),
            fx_mul_spec(a.y as int, b.x as int),
        ) as i64,
    }
}

/// The cross product is antisymmetric wherever no component difference of
/// products saturates: swapping the operands negates each component. At
/// the saturation extremes of the total scalar the two sides can differ by
/// one unit, which the bounds here exclude.
pub proof fn law_cross_antisymmetric(a: Vct, b: Vct)
    requires
        i64::MIN < fx_mul_spec(a.y as int, b.z as int) - fx_mul_spec(a.z as int, b.y as int)
            <= i64::MAX,
        i64::MIN < fx_mul_spec(a.z as int, b.x as int) - fx_mul_spec(a.x as int, b.z as int)
            <= i64::MAX,
        i64::MIN < fx_mul_spec(a.x as int, b.y as int) - fx_mul_spec(a.y as int, b.x as int)
            <= i64::MAX,
    ensures
        cross_spec(a, b).x == fx_neg_spec(cross_spec(b, a).x as int),
        cross_spec(a, b).y == fx_neg_spec(cross_spec(b, a).y as int),
        cross_spec(a, b).z == fx_neg_spec(cross_spec(b, a).z as int),
{
    assert(fx_mul_spec(a.y as int, b.z as int) == fx_mul_spec(b.z as int, a.y as int));
    assert(fx_mul_spec(a.z as int, b.y as int) == fx_mul_spec(b.y as int, a.z as int));
    assert(fx_mul_spec(a.z as int, b.x as int) == fx_mul_spec(b.x as int, a.z as int));
    assert(fx_mul_spec(a.x as int, b.z as int) == fx_mul_spec(b.z as int, a.x as int));
    assert(fx_mul_spec(a.x as int, b.y as int) == fx_mul_spec(b.y as int, a.x as int));
    assert(fx_mul_spec(a.y as int, b.x as int) == fx_mul_spec(b.x as int, a.y as int));
}

/// `r` is `v` divided componentwise by the fixed-point length of `v`.
pub open spec fn is_unitized(v: Vct, r: Vct) -> bool {
    exists|l: int|
        {
            &&& is_fx_sqrt(dot_spec(v, v), l)
            &&& r.x == crate::fx::fx_div_spec(v.x as int, l)
            &&& r.y == crate::fx::fx_div_spec(v.y as int, l)
            &&& r.z == crate::fx::fx_div_spec(v.z as int, l)
        }
}

/// `n` is the unit normal of the triangle `(v1, v2, v3)` as the engine
/// computes it: the normalized cross product `(v1 - v3) x (v2 - v3)`.
pub open spec fn face_normal_rel(v1: Vct, v2: Vct, v3: Vct, n: Vct) -> bool {
    is_unitized(cross_spec(sub_vec_spec(v1, v3), sub_vec_spec(v2, v3)), n)
}

/// Homogeneous plane coordinate `k` for normal `n` through point `v3`:
/// the normal's components, then `-(n . v3)`.
pub open spec fn plane_coord(n: Vct, v3: Vct, k: int) -> int {
    if k == 0 {
        n.x as int
    } else if k == 1 {
        n.y as int
    } else if k == 2 {
        n.z as int
    } else {
        fx_neg_spec(dot_spec(n, v3))
    }
}

/// `q` is the face quadric of the triangle `(v1, v2, v3)`: the outer
/// product of its homogeneous plane vector with itself.
pub open spec fn face_quadric_rel(v1: Vct, v2: Vct, v3: Vct, q: Mat) -> bool {
    exists|n: Vct|
        {
            &&& face_normal_rel(v1, v2, v3, n)
            &&& forall|i: int, j: int|
                0 <= i < 4 && 0 <= j < 4 ==> q.m[i][j] == fx_mul_spec(
                    plane_coord(n, v3, i),
                    plane_coord(n, v3, j),
                )
        }
}

/// The face quadric of a triangle with the given corner positions.
pub fn cal_q(v1: &Vct, v2: &Vct, v3: &Vct) -> (q: Mat)
    ensures
        face_quadric_rel(*v1, *v2, *v3, q),
{
    let norm = v1.sub(*v3).cross(v2.sub(*v3)).norm();
    let pv: [i64; 4] = [norm.x, norm.y, norm.z, fx_neg(norm.dot(*v3))];
    proof {
        assert(forall|k: int| 0 <= k < 4 ==> pv[k] == plane_coord(norm, *v3, k));
    }
    let mut q = Mat::zero();
    let mut i: usize = 0;
    while i < 4
        invariant
            i <= 4,
            forall|k: int| 0 <= k < 4 ==> pv[k] == plane_coord(norm, *v3, k),
            forall|a: int, b: int|
                0 <= a < i && 0 <= b < 4 ==> q.m[a][b] == fx_mul_spec(
                    plane_coord(norm, *v3, a),
                    plane_coord(norm, *v3, b),
                ),
        decreases 4 - i,
    {
        let mut j: usize = 0;
        while j < 4
            invariant
                i < 4,
                j <= 4,
                forall|k: int| 0 <= k < 4 ==> pv[k] == plane_coord(norm, *v3, k),
                forall|a: int, b: int|
                    0 <= a < i && 0 <= b < 4 ==> q.m[a][b] == fx_mul_spec(
                        plane_coord(norm, *v3, a),
                        plane_coord(norm, *v3, b),
                    ),
                forall|b: int|
                    0 <= b < j ==> q.m[i as int][b] == fx_mul_spec(
                        plane_coord(norm, *v3, i as int),
                        plane_coord(norm, *v3, b),
                    ),
            decreases 4 - j,
        {
            q.m[i][j] = crate::fx::fx_mul(pv[i], pv[j]);
            j = j + 1;
        }
        i = i + 1;
    }
    proof {
        assert(face_normal_rel(*v1, *v2, *v3, norm));
    }
    q
}

} // verus!

use crate::fx::fx_add;
use crate::fx::fx_mul;
use crate::fx::fx_div_spec;

verus! {

/// The edge-collapse engine. One value of this type owns all mutable state
/// of a single simplification run: the growing vertex and triangle arenas,
/// the quadric caches, adjacency, deletion flags, the candidate arena and
/// the pending queue, and the remaining removal budget.
pub struct Simplifier {
    /// Vertex positions; merged vertices are appended, none is removed.
    pub pos: Vec<Vct>,
    /// Triangles; corners are relabeled in place, none is removed.
    pub tri: Vec<Tri>,
    /// Aggregate quadric per vertex.
    pub qv: Vec<Mat>,
    /// Stored face quadric per triangle.
    pub qp: Vec<Mat>,
    /// Incident-triangle list per vertex: a superset of the live incidences.
    pub head: Vec<Vec<usize>>,
    /// Permanent deletion flag per vertex.
    pub dele: Vec<bool>,
    /// Transient marker per vertex, owned by neighbor regeneration; false
    /// outside it.
    pub vis: Vec<bool>,
    /// Candidate arena; candidates are appended, never removed.
    pub edges: Vec<Edge>,
    /// Pending `(cost, candidate)` entries; stale ones are skipped at pop.
    pub queue: Vec<State>,
    /// Triangles still allowed to be removed.
    pub budget: usize,
    /// Candidates whose endpoints are at least this far apart (squared) are
    /// not generated.
    pub dist_ceiling: i64,
    /// Candidates at least this costly are not generated.
    pub cost_ceiling: i64,
}

impl Simplifier {
    /// Structural well-formedness: parallel arrays agree in length, and
    /// every stored index is in range. Additionally every valid triangle is
    /// listed in the incidence list of each of its corners.
    pub open spec fn wf(self) -> bool {
        &&& self.qv@.len() == self.pos@.len()
        &&& self.dele@.len() == self.pos@.len()
        &&& self.vis@.len() == self.pos@.len()
        &&& self.head@.len() == self.pos@.len()
        &&& self.qp@.len() == self.tri@.len()
        &&& forall|i: int|
            0 <= i < self.tri@.len() ==> tri_in_range(self.tri@[i], self.pos@.len() as int)
        &&& forall|v: int, k: int|
            0 <= v < self.head@.len() && 0 <= k < self.head@[v]@.len() ==> self.head@[v]@[k]
                < self.tri@.len()
        &&& forall|e: int|
            0 <= e < self.edges@.len() ==> self.edges@[e].v1 < self.pos@.len()
                && self.edges@[e].v2 < self.pos@.len()
        &&& forall|s: int|
            0 <= s < self.queue@.len() ==> self.queue@[s].index < self.edges@.len()
        &&& self.incidence_complete()
    }

    /// Every valid triangle is listed in the incidence list of each of its
    /// corners.
    pub open spec fn incidence_complete(self) -> bool {
        forall|i: int|
            0 <= i < self.tri@.len() && self.tri_valid(i) ==> {
                &&& list_has(self.head@[self.tri@[i].0 as int]@, i)
                &&& list_has(self.head@[self.tri@[i].1 as int]@, i)
                &&& list_has(self.head@[self.tri@[i].2 as int]@, i)
            }
    }

    /// A triangle is valid while none of its corners is flagged deleted.
    pub open spec fn tri_valid(self, i: int) -> bool {
        &&& !self.dele@[self.tri@[i].0 as int]
        &&& !self.dele@[self.tri@[i].1 as int]
        &&& !self.dele@[self.tri@[i].2 as int]
    }

    /// Number of valid triangles among the first `n`.
    pub open spec fn valid_count_to(self, n: int) -> int
        decreases n,
    {
        if n <= 0 {
            0
        } else {
            self.valid_count_to(n - 1) + if self.tri_valid(n - 1) {
                1int
            } else {
                0int
            }
        }
    }

    /// Number of valid triangles.
    pub open spec fn valid_count(self) -> int {
        self.valid_count_to(self.tri@.len() as int)
    }

    /// Exec counterpart of `valid_count`, usable by callers and tests.
    pub fn count_valid_triangles(&self) -> (r: usize)
        requires
            self.wf(),
        ensures
            r == self.valid_count(),
    {
        let mut c: usize = 0;
        let mut i: usize = 0;
        while i < self.tri.len()
            invariant
                self.wf(),
                i <= self.tri@.len(),
                c == self.valid_count_to(i as int),
                c <= i,
            decreases self.tri@.len() - i,
        {
            let t = self.tri[i];
            if !self.dele[t.0] && !self.dele[t.1] && !self.dele[t.2] {
                c = c + 1;
            }
            i = i + 1;
        }
        c
    }

    /// Number of valid triangles containing both `a` and `b`: the
    /// triangles a collapse of that pair removes.
    pub fn count_shared(&self, a: usize, b: usize) -> (r: usize)
        requires
            self.wf(),
        ensures
            r == count_both_to(*self, a as int, b as int, self.tri@.len() as int),
    {
        let mut c: usize = 0;
        let mut i: usize = 0;
        while i < self.tri.len()
            invariant
                self.wf(),
                i <= self.tri@.len(),
                c == count_both_to(*self, a as int, b as int, i as int),
                c <= i,
            decreases self.tri@.len() - i,
        {
            let t = self.tri[i];
            let live = !self.dele[t.0] && !self.dele[t.1] && !self.dele[t.2];
            if live && (t.0 == a || t.1 == a || t.2 == a) && (t.0 == b || t.1 == b || t.2 == b) {
                c = c + 1;
            }
            i = i + 1;
        }
        c
    }
}

} // verus!

verus! {

/// The midpoint of two positions as the engine computes it: the sum scaled
/// by one half.
pub open spec fn midpoint_spec(a: Vct, b: Vct) -> Vct {
    Vct {
        x: fx_mul_spec(fx_add_spec(a.x as int, b.x as int), FX_HALF as int) as i64,
        y: fx_mul_spec(fx_add_spec(a.y as int, b.y as int), FX_HALF as int) as i64,
        z: fx_mul_spec(fx_add_spec(a.z as int, b.z as int), FX_HALF as int) as i64,
    }
}

/// The merge point of a candidate with combined quadric `q` and endpoint
/// positions `p1`, `p2`: the last column of the checked inverse of the
/// split of `q` when that inversion succeeds, otherwise the midpoint.
pub open spec fn merge_point_rel(q: Mat, p1: Vct, p2: Vct, v: Vct) -> bool {
    match checked_inverse_seq(split_seq(q)) {
        Option::Some(bs) => v == (Vct { x: bs[3] as i64, y: bs[7] as i64, z: bs[11] as i64 }),
        Option::None => v == midpoint_spec(p1, p2),
    }
}

/// The combined quadric of a candidate pair, row-major.
pub open spec fn combined_seq(qa: Mat, qb: Mat) -> Seq<int> {
    Seq::new(16, |k: int| fx_add_spec(qa.m[k / 4][k % 4] as int, qb.m[k / 4][k % 4] as int))
}

/// The combined quadric with the last row forced homogeneous: the matrix
/// the candidate solve inverts.
pub open spec fn pair_split_seq(qa: Mat, qb: Mat) -> Seq<int> {
    Seq::new(
        16,
        |k: int|
            if k / 4 == 3 {
                id_spec(3, k % 4)
            } else {
                fx_add_spec(qa.m[k / 4][k % 4] as int, qb.m[k / 4][k % 4] as int)
            },
    )
}

/// The merge point a candidate with these aggregate quadrics and endpoint
/// positions gets: the solved optimum when the split combined quadric has
/// a checked inverse, otherwise the midpoint.
pub open spec fn merge_point_of(qa: Mat, qb: Mat, p1: Vct, p2: Vct) -> Vct {
    match checked_inverse_seq(pair_split_seq(qa, qb)) {
        Option::Some(bs) => Vct { x: bs[3] as i64, y: bs[7] as i64, z: bs[11] as i64 },
        Option::None => midpoint_spec(p1, p2),
    }
}

/// The cost of that candidate: the combined quadric evaluated at its merge
/// point.
pub open spec fn pair_cost(qa: Mat, qb: Mat, p1: Vct, p2: Vct) -> int {
    quad_eval_seq(combined_seq(qa, qb), merge_point_of(qa, qb, p1, p2))
}

/// A candidate for this pair is not generated: its endpoints are at least
/// the distance ceiling apart (squared), or it costs at least the cost
/// ceiling.
pub open spec fn pair_rejected(qa: Mat, qb: Mat, p1: Vct, p2: Vct, dceil: int, cceil: int) -> bool {
    ||| dot_spec(sub_vec_spec(p1, p2), sub_vec_spec(p1, p2)) >= dceil
    ||| pair_cost(qa, qb, p1, p2) >= cceil
}

/// Some candidate in the arena joins `v1` to `v2`.
pub open spec fn edge_seeded(es: Seq<Edge>, v1: int, v2: int) -> bool {
    exists|e: int| 0 <= e < es.len() && es[e].v1 == v1 && es[e].v2 == v2
}

/// The pair was considered: a candidate for it is in the arena, or it is
/// rejected by a ceiling.
pub open spec fn pair_considered(s: Simplifier, v1: int, v2: int) -> bool {
    ||| edge_seeded(s.edges@, v1, v2)
    ||| pair_rejected(
        s.qv@[v1],
        s.qv@[v2],
        s.pos@[v1],
        s.pos@[v2],
        s.dist_ceiling as int,
        s.cost_ceiling as int,
    )
}

/// A candidate arena extended on the right keeps every pair it had.
proof fn lemma_edge_seeded_extend(es1: Seq<Edge>, es2: Seq<Edge>, v1: int, v2: int)
    requires
        es1.len() <= es2.len(),
        forall|k: int| 0 <= k < es1.len() ==> es2[k] == es1[k],
        edge_seeded(es1, v1, v2),
    ensures
        edge_seeded(es2, v1, v2),
{
    let e = choose|e: int| 0 <= e < es1.len() && es1[e].v1 == v1 && es1[e].v2 == v2;
    assert(0 <= e < es2.len() && es2[e].v1 == v1 && es2[e].v2 == v2);
}

/// Number of valid triangles among the first `n` that contain both `a` and
/// `b`.
pub open spec fn count_both_to(s: Simplifier, a: int, b: int, n: int) -> int
    decreases n,
{
    if n <= 0 {
        0
    } else {
        count_both_to(s, a, b, n - 1) + if s.tri_valid(n - 1) && in_tri(s.tri@[n - 1], a)
            && in_tri(s.tri@[n - 1], b) {
            1int
        } else {
            0int
        }
    }
}

/// Two engine states with the same triangles and the same deletion flags
/// count the same valid triangles.
pub proof fn lemma_count_congruent(s1: Simplifier, s2: Simplifier, n: int)
    requires
        s1.tri@ == s2.tri@,
        s1.dele@ == s2.dele@,
    ensures
        s1.valid_count_to(n) == s2.valid_count_to(n),
    decreases n,
{
    if n > 0 {
        lemma_count_congruent(s1, s2, n - 1);
        assert(s1.tri_valid(n - 1) == s2.tri_valid(n - 1));
    }
}

/// Incidence completeness depends only on the triangles, the deletion
/// flags, and the incidence lists.
pub proof fn lemma_incidence_congruent(s1: Simplifier, s2: Simplifier)
    requires
        s1.incidence_complete(),
        s1.head@ == s2.head@,
        s1.tri@ == s2.tri@,
        s1.dele@ == s2.dele@,
    ensures
        s2.incidence_complete(),
{
    assert forall|i: int| 0 <= i < s2.tri@.len() && s2.tri_valid(i) implies {
        &&& list_has(s2.head@[s2.tri@[i].0 as int]@, i)
        &&& list_has(s2.head@[s2.tri@[i].1 as int]@, i)
        &&& list_has(s2.head@[s2.tri@[i].2 as int]@, i)
    } by {
        assert(s1.tri_valid(i));
        assert(list_has(s1.head@[s1.tri@[i].0 as int]@, i));
        assert(list_has(s1.head@[s1.tri@[i].1 as int]@, i));
        assert(list_has(s1.head@[s1.tri@[i].2 as int]@, i));
    }
}

/// With no deletion flag set, every triangle is valid and the count is
/// the triangle total.
pub proof fn lemma_count_all_valid(s: Simplifier, n: int)
    requires
        n >= 0,
        forall|i: int| 0 <= i < n ==> s.tri_valid(i),
    ensures
        s.valid_count_to(n) == n,
    decreases n,
{
    if n > 0 {
        lemma_count_all_valid(s, n - 1);
    }
}

/// A collapse of the pair `(a, b)` invalidates exactly the valid triangles
/// containing both: pointwise, that drops the count by their number.
pub proof fn lemma_count_collapse(s1: Simplifier, s2: Simplifier, a: int, b: int, n: int)
    requires
        forall|i: int|
            0 <= i < n ==> (s2.tri_valid(i) <==> (s1.tri_valid(i) && !(in_tri(s1.tri@[i], a)
                && in_tri(s1.tri@[i], b)))),
    ensures
        s2.valid_count_to(n) == s1.valid_count_to(n) - count_both_to(s1, a, b, n),
    decreases n,
{
    if n > 0 {
        lemma_count_collapse(s1, s2, a, b, n - 1);
    }
}

impl Simplifier {
    /// Builds one candidate for the vertex pair `(v1, v2)` and enqueues it,
    /// unless the endpoints are at least the distance ceiling apart or the
    /// candidate costs at least the cost ceiling. The merge point comes
    /// from inverting the split combined quadric, with the midpoint as the
    /// fallback, and the cost is the combined quadric evaluated there.
    fn push_candidate(&mut self, v1: usize, v2: usize)
        requires
            old(self).wf(),
            v1 < old(self).pos@.len(),
            v2 < old(self).pos@.len(),
        ensures
            final(self).wf(),
            final(self).pos == old(self).pos,
            final(self).tri == old(self).tri,
            final(self).qv == old(self).qv,
            final(self).qp == old(self).qp,
            final(self).head == old(self).head,
            final(self).dele == old(self).dele,
            final(self).vis == old(self).vis,
            final(self).budget == old(self).budget,
            final(self).dist_ceiling == old(self).dist_ceiling,
            final(self).cost_ceiling == old(self).cost_ceiling,
            final(self).edges@.len() == old(self).edges@.len() || final(self).edges@.len() == old(
                self,
            ).edges@.len() + 1,
            final(self).edges@.len() == old(self).edges@.len() ==> final(self).edges == old(
                self,
            ).edges && final(self).queue == old(self).queue && pair_rejected(
                old(self).qv@[v1 as int],
                old(self).qv@[v2 as int],
                old(self).pos@[v1 as int],
                old(self).pos@[v2 as int],
                old(self).dist_ceiling as int,
                old(self).cost_ceiling as int,
            ),
            final(self).edges@.len() == old(self).edges@.len() + 1 ==> {
                let e = final(self).edges@.last();
                &&& forall|k: int|
                    0 <= k < old(self).edges@.len() ==> final(self).edges@[k] == old(
                        self,
                    ).edges@[k]
                &&& e.v1 == v1
                &&& e.v2 == v2
                &&& forall|i: int, j: int|
                    0 <= i < 4 && 0 <= j < 4 ==> e.qv.m[i][j] == fx_add_spec(
                        old(self).qv@[v1 as int].m[i][j] as int,
                        old(self).qv@[v2 as int].m[i][j] as int,
                    )
                &&& merge_point_rel(
                    e.qv,
                    old(self).pos@[v1 as int],
                    old(self).pos@[v2 as int],
                    e.v,
                )
                &&& e.cost == quad_eval_spec(e.qv, e.v)
                &&& e.cost < old(self).cost_ceiling
                &&& final(self).queue@ == old(self).queue@.push(
                    State { cost: e.cost, index: (final(self).edges@.len() - 1) as usize },
                )
            },
    {
        let p1 = self.pos[v1];
        let p2 = self.pos[v2];
        let d = p1.sub(p2);
        if d.len2() >= self.dist_ceiling {
            proof {
                assert(d == sub_vec_spec(p1, p2));
            }
            return ;
        }
        let qv = self.qv[v1].add(&self.qv[v2]);
        let sp = qv.split();
        let inv = sp.inverse();
        proof {
            assert(mat_seq(sp) =~= split_seq(qv));
        }
        let v: Vct;
        match inv {
            Option::Some(m) => {
                v = Vct::new(m.m[0][3], m.m[1][3], m.m[2][3]);
                proof {
                    let bs = checked_inverse_seq(split_seq(qv))->Some_0;
                    assert(bs[3] == m.m[0][3] && bs[7] == m.m[1][3] && bs[11] == m.m[2][3]);
                    assert(merge_point_rel(qv, p1, p2, v));
                }
            },
            Option::None => {
                v = p1.add(p2).muls(FX_HALF);
                proof {
                    assert(v == midpoint_spec(p1, p2));
                    assert(merge_point_rel(qv, p1, p2, v));
                }
            },
        }
        let cost = qv.multiply_by_vct(v);
        if cost >= self.cost_ceiling {
            proof {
                let qa = self.qv@[v1 as int];
                let qb = self.qv@[v2 as int];
                assert(pair_split_seq(qa, qb) =~= split_seq(qv));
                assert(v == merge_point_of(qa, qb, p1, p2));
                assert(combined_seq(qa, qb) =~= mat_seq(qv));
                assert(col_dot_seq(mat_seq(qv), v, 0) == col_dot_spec(qv, v, 0));
                assert(col_dot_seq(mat_seq(qv), v, 1) == col_dot_spec(qv, v, 1));
                assert(col_dot_seq(mat_seq(qv), v, 2) == col_dot_spec(qv, v, 2));
                assert(col_dot_seq(mat_seq(qv), v, 3) == col_dot_spec(qv, v, 3));
                assert(pair_cost(qa, qb, p1, p2) == quad_eval_spec(qv, v));
                assert(pair_rejected(
                    qa,
                    qb,
                    p1,
                    p2,
                    self.dist_ceiling as int,
                    self.cost_ceiling as int,
                ));
            }
            return ;
        }
        self.edges.push(Edge::new(v1, v2, qv, v, cost));
        self.queue.push(State::new(cost, self.edges.len() - 1));
        proof {
            assert forall|t: int| 0 <= t < self.queue@.len() implies self.queue@[t].index
                < self.edges@.len() by {
                if t < old(self).queue@.len() {
                    assert(self.queue@[t] == old(self).queue@[t]);
                }
            }
            lemma_incidence_congruent(*old(self), *self);
        }
    }

    /// Removes and returns a cheapest pending entry; `None` on an empty
    /// queue. Everything else is left untouched.
    pub fn pop_min(&mut self) -> (r: Option<State>)
        requires
            old(self).wf(),
        ensures
            final(self).wf(),
            final(self).pos == old(self).pos,
            final(self).tri == old(self).tri,
            final(self).qv == old(self).qv,
            final(self).qp == old(self).qp,
            final(self).head == old(self).head,
            final(self).dele == old(self).dele,
            final(self).vis == old(self).vis,
            final(self).edges == old(self).edges,
            final(self).budget == old(self).budget,
            final(self).dist_ceiling == old(self).dist_ceiling,
            final(self).cost_ceiling == old(self).cost_ceiling,
            old(self).queue@.len() == 0 ==> r is None && final(self).queue == old(self).queue,
            old(self).queue@.len() > 0 ==> {
                let st = r->Some_0;
                &&& r is Some
                &&& final(self).queue@.len() == old(self).queue@.len() - 1
                &&& old(self).queue@.contains(st)
                &&& st.index < old(self).edges@.len()
                &&& forall|k: int|
                    0 <= k < old(self).queue@.len() ==> st.cost <= old(self).queue@[k].cost
                &&& forall|k: int|
                    0 <= k < final(self).queue@.len() ==> old(self).queue@.contains(
                        final(self).queue@[k],
                    )
            },
    {
        if self.queue.len() == 0 {
            return Option::None;
        }
        let mut best: usize = 0;
        let mut i: usize = 1;
        while i < self.queue.len()
            invariant
                best < self.queue@.len(),
                i <= self.queue@.len(),
                self.queue@.len() > 0,
                forall|k: int| 0 <= k < i ==> self.queue@[best as int].cost <= self.queue@[k].cost,
            decreases self.queue@.len() - i,
        {
            if self.queue[i].cost < self.queue[best].cost {
                best = i;
            }
            i = i + 1;
        }
        let st = self.queue.remove(best);
        proof {
            assert(old(self).queue@.contains(st)) by {
                assert(old(self).queue@[best as int] == st);
            }
            assert forall|k: int| 0 <= k < self.queue@.len() implies old(self).queue@.contains(
                self.queue@[k],
            ) && self.queue@[k].index < self.edges@.len() by {
                if k < best {
                    assert(self.queue@[k] == old(self).queue@[k]);
                } else {
                    assert(self.queue@[k] == old(self).queue@[k + 1]);
                }
            }
            lemma_incidence_congruent(*old(self), *self);
        }
        Option::Some(st)
    }
}

} // verus!

verus! {

/// Removal budget for `n` triangles and removal fraction `ratio`
/// (fixed-point, in `[0, 1)`): `n * ratio` rounded to the nearest whole
/// number, half rounding up.
pub open spec fn budget_spec(n: int, ratio: int) -> int {
    (n * ratio + 0x8000_0000) / 0x1_0000_0000
}

/// A list extended on the right keeps every index it had.
proof fn lemma_list_has_extend(l1: Seq<usize>, l2: Seq<usize>, i: int)
    requires
        l1.len() <= l2.len(),
        forall|k: int| 0 <= k < l1.len() ==> l2[k] == l1[k],
        list_has(l1, i),
    ensures
        list_has(l2, i),
{
    let k = choose|k: int| 0 <= k < l1.len() && l1[k] == i;
    assert(0 <= k < l2.len() && l2[k] == i);
}

/// Entry `(i, j)` of the aggregate quadric of vertex `v` over the first
/// `n` triangles: face quadrics are added left to right, once per corner
/// occurrence, exactly as initialization accumulates them.
pub open spec fn agg_entry(tri: Seq<Tri>, qp: Seq<Mat>, v: int, n: int, i: int, j: int) -> int
    decreases n,
{
    if n <= 0 {
        0
    } else {
        let rest = agg_entry(tri, qp, v, n - 1, i, j);
        let t = tri[n - 1];
        let q = qp[n - 1].m[i][j] as int;
        let s0 = if t.0 == v {
            fx_add_spec(rest, q)
        } else {
            rest
        };
        let s1 = if t.1 == v {
            fx_add_spec(s0, q)
        } else {
            s0
        };
        if t.2 == v {
            fx_add_spec(s1, q)
        } else {
            s1
        }
    }
}

/// The aggregate over the first `n` triangles reads only that prefix of the
/// stored face quadrics.
pub proof fn lemma_agg_prefix(
    tri: Seq<Tri>,
    qp1: Seq<Mat>,
    qp2: Seq<Mat>,
    v: int,
    n: int,
    i: int,
    j: int,
)
    requires
        0 <= n <= qp1.len(),
        qp1.len() <= qp2.len(),
        forall|k: int| 0 <= k < n ==> qp2[k] == qp1[k],
    ensures
        agg_entry(tri, qp1, v, n, i, j) == agg_entry(tri, qp2, v, n, i, j),
    decreases n,
{
    if n > 0 {
        lemma_agg_prefix(tri, qp1, qp2, v, n - 1, i, j);
    }
}

/// The removal budget, computed in exact integer arithmetic; it never
/// exceeds the triangle total.
fn remove_budget(n: usize, ratio: i64) -> (r: usize)
    requires
        0 <= ratio < FX_ONE,
    ensures
        r == budget_spec(n as int, ratio as int),
        r <= n,
{
    let nn: u128 = n as u128;
    let rr: u128 = ratio as u128;
    assert(nn * rr < 0x1_0000_0000_0000_0000_0000_0000u128) by (nonlinear_arith)
        requires
            nn < 0x1_0000_0000_0000_0000u128,
            rr < 0x1_0000_0000u128;
    let t: u128 = nn * rr + 0x8000_0000u128;
    let b: u128 = t / 0x1_0000_0000u128;
    proof {
        assert(t < (nn + 1) * 0x1_0000_0000u128) by (nonlinear_arith)
            requires
                rr < 0x1_0000_0000u128,
                t == nn * rr + 0x8000_0000u128;
        assert(b <= nn) by (nonlinear_arith)
            requires
                t < (nn + 1) * 0x1_0000_0000u128,
                b == t / 0x1_0000_0000u128;
    }
    b as usize
}

impl Simplifier {
    /// Sets up a simplification run: rejects out-of-range input topology,
    /// computes every face quadric, accumulates the vertex aggregates,
    /// builds the incidence lists, seeds one candidate per triangle edge,
    /// and fixes the removal budget.
    pub fn new(mesh: &Mesh, ratio: i64, dist_ceiling: i64, cost_ceiling: i64) -> (r: Result<
        Simplifier,
        SimplifyError,
    >)
        requires
            0 <= ratio < FX_ONE,
        ensures
            r is Ok <==> mesh.wf(),
            r is Err ==> r->Err_0 == SimplifyError::InvalidInputTopology,
            r is Ok ==> {
                let s = r->Ok_0;
                &&& s.wf()
                &&& s.pos@ == mesh.pos@
                &&& s.tri@ == mesh.tri@
                &&& s.budget == budget_spec(mesh.tri@.len() as int, ratio as int)
                &&& s.budget <= mesh.tri@.len()
                &&& forall|v: int| 0 <= v < s.dele@.len() ==> !s.dele@[v]
                &&& forall|v: int| 0 <= v < s.vis@.len() ==> !s.vis@[v]
                &&& s.valid_count() == mesh.tri@.len()
                &&& forall|t: int|
                    0 <= t < s.qp@.len() ==> face_quadric_rel(
                        mesh.pos@[mesh.tri@[t].0 as int],
                        mesh.pos@[mesh.tri@[t].1 as int],
                        mesh.pos@[mesh.tri@[t].2 as int],
                        s.qp@[t],
                    )
                &&& forall|v: int, ii: int, jj: int|
                    0 <= v < s.qv@.len() && 0 <= ii < 4 && 0 <= jj < 4
                        ==> (#[trigger] s.qv@[v].m[ii][jj]) == agg_entry(
                        s.tri@,
                        s.qp@,
                        v,
                        s.tri@.len() as int,
                        ii,
                        jj,
                    )
                &&& forall|t: int|
                    0 <= t < mesh.tri@.len() ==> {
                        &&& pair_considered(s, mesh.tri@[t].0 as int, mesh.tri@[t].1 as int)
                        &&& pair_considered(s, mesh.tri@[t].1 as int, mesh.tri@[t].2 as int)
                        &&& pair_considered(s, mesh.tri@[t].0 as int, mesh.tri@[t].2 as int)
                    }
                &&& s.dist_ceiling == dist_ceiling
                &&& s.cost_ceiling == cost_ceiling
            },
    {
        if !mesh.check_topology() {
            return Result::Err(SimplifyError::InvalidInputTopology);
        }
        let n = mesh.pos.len();
        let m = mesh.tri.len();
        let budget = remove_budget(m, ratio);

        let mut pos: Vec<Vct> = Vec::new();
        let mut i: usize = 0;
        while i < n
            invariant
                i <= n,
                n == mesh.pos@.len(),
                pos@.len() == i,
                forall|k: int| 0 <= k < i ==> pos@[k] == mesh.pos@[k],
            decreases n - i,
        {
            pos.push(mesh.pos[i]);
            i = i + 1;
        }
        proof {
            assert(pos@ =~= mesh.pos@);
        }

        let mut tri: Vec<Tri> = Vec::new();
        let mut i: usize = 0;
        while i < m
            invariant
                i <= m,
                m == mesh.tri@.len(),
                tri@.len() == i,
                forall|k: int| 0 <= k < i ==> tri@[k] == mesh.tri@[k],
            decreases m - i,
        {
            tri.push(mesh.tri[i]);
            i = i + 1;
        }
        proof {
            assert(tri@ =~= mesh.tri@);
        }

        let mut qv: Vec<Mat> = Vec::new();
        let mut dele: Vec<bool> = Vec::new();
        let mut vis: Vec<bool> = Vec::new();
        let mut head: Vec<Vec<usize>> = Vec::new();
        let mut i: usize = 0;
        while i < n
            invariant
                i <= n,
                qv@.len() == i,
                dele@.len() == i,
                vis@.len() == i,
                head@.len() == i,
                forall|v: int| 0 <= v < i ==> !dele@[v],
                forall|v: int| 0 <= v < i ==> !vis@[v],
                forall|v: int| 0 <= v < i ==> head@[v]@.len() == 0,
                forall|v: int, ii: int, jj: int|
                    0 <= v < i && 0 <= ii < 4 && 0 <= jj < 4 ==> (#[trigger] qv@[v].m[ii][jj])
                        == 0,
            decreases n - i,
        {
            qv.push(Mat::zero());
            dele.push(false);
            vis.push(false);
            head.push(Vec::new());
            i = i + 1;
        }

        let mut qp: Vec<Mat> = Vec::new();
        let mut i: usize = 0;
        while i < m
            invariant
                i <= m,
                m == tri@.len(),
                n == pos@.len(),
                qv@.len() == n,
                head@.len() == n,
                qp@.len() == i,
                forall|k: int| 0 <= k < m ==> tri_in_range(tri@[k], n as int),
                forall|v: int, k: int|
                    0 <= v < n && 0 <= k < head@[v]@.len() ==> head@[v]@[k] < m,
                forall|t: int|
                    0 <= t < i ==> {
                        &&& list_has(head@[tri@[t].0 as int]@, t)
                        &&& list_has(head@[tri@[t].1 as int]@, t)
                        &&& list_has(head@[tri@[t].2 as int]@, t)
                    },
                forall|t: int|
                    0 <= t < i ==> face_quadric_rel(
                        pos@[tri@[t].0 as int],
                        pos@[tri@[t].1 as int],
                        pos@[tri@[t].2 as int],
                        #[trigger] qp@[t],
                    ),
                forall|v: int, ii: int, jj: int|
                    0 <= v < n && 0 <= ii < 4 && 0 <= jj < 4 ==> (#[trigger] qv@[v].m[ii][jj])
                        == agg_entry(tri@, qp@, v, i as int, ii, jj),
            decreases m - i,
        {
            let t = tri[i];
            let qk = cal_q(&pos[t.0], &pos[t.1], &pos[t.2]);
            let ghost qp0 = qp@;
            qp.push(qk);
            let ghost qv0 = qv@;
            proof {
                assert forall|v: int, ii: int, jj: int|
                    0 <= v < n && 0 <= ii < 4 && 0 <= jj < 4 implies qv0[v].m[ii][jj] == agg_entry(
                    tri@,
                    qp@,
                    v,
                    i as int,
                    ii,
                    jj,
                ) by {
                    lemma_agg_prefix(tri@, qp0, qp@, v, i as int, ii, jj);
                }
            }
            let acc0 = qv[t.0].add(&qk);
            qv[t.0] = acc0;
            let ghost qv1 = qv@;
            let acc1 = qv[t.1].add(&qk);
            qv[t.1] = acc1;
            let ghost qv2 = qv@;
            let acc2 = qv[t.2].add(&qk);
            qv[t.2] = acc2;
            proof {
                assert(qp@[i as int] == qk);
                assert forall|v: int, ii: int, jj: int|
                    0 <= v < n && 0 <= ii < 4 && 0 <= jj < 4 implies qv@[v].m[ii][jj] == agg_entry(
                    tri@,
                    qp@,
                    v,
                    i as int + 1,
                    ii,
                    jj,
                ) by {
                    let rest = agg_entry(tri@, qp@, v, i as int, ii, jj);
                    let q = qp@[i as int].m[ii][jj] as int;
                    assert(qv0[v].m[ii][jj] == rest);
                    let s0 = if tri@[i as int].0 == v {
                        fx_add_spec(rest, q)
                    } else {
                        rest
                    };
                    let s1 = if tri@[i as int].1 == v {
                        fx_add_spec(s0, q)
                    } else {
                        s0
                    };
                    let s2 = if tri@[i as int].2 == v {
                        fx_add_spec(s1, q)
                    } else {
                        s1
                    };
                    assert(qv1[v].m[ii][jj] == s0);
                    assert(qv2[v].m[ii][jj] == s1);
                    assert(qv@[v].m[ii][jj] == s2);
                    assert(agg_entry(tri@, qp@, v, i as int + 1, ii, jj) == s2);
                }
            }
            let ghost h0 = head@;
            head[t.0].push(i);
            let ghost h1 = head@;
            head[t.1].push(i);
            let ghost h2 = head@;
            head[t.2].push(i);
            proof {
                assert forall|v: int| 0 <= v < n implies h0[v]@.len() <= head@[v]@.len()
                    && (forall|k: int| 0 <= k < h0[v]@.len() ==> head@[v]@[k] == h0[v]@[k]) by {}
                assert forall|v: int| 0 <= v < n implies h1[v]@.len() <= head@[v]@.len()
                    && (forall|k: int| 0 <= k < h1[v]@.len() ==> head@[v]@[k] == h1[v]@[k]) by {}
                assert forall|v: int| 0 <= v < n implies h2[v]@.len() <= head@[v]@.len()
                    && (forall|k: int| 0 <= k < h2[v]@.len() ==> head@[v]@[k] == h2[v]@[k]) by {}
                assert(h1[t.0 as int]@ == h0[t.0 as int]@.push(i));
                assert(h1[t.0 as int]@[h1[t.0 as int]@.len() - 1] == i);
                assert(list_has(h1[t.0 as int]@, i as int));
                assert(h2[t.1 as int]@ == h1[t.1 as int]@.push(i));
                assert(h2[t.1 as int]@[h2[t.1 as int]@.len() - 1] == i);
                assert(list_has(h2[t.1 as int]@, i as int));
                assert(head@[t.2 as int]@ == h2[t.2 as int]@.push(i));
                assert(head@[t.2 as int]@[head@[t.2 as int]@.len() - 1] == i);
                assert(list_has(head@[t.2 as int]@, i as int));
                lemma_list_has_extend(h1[t.0 as int]@, head@[t.0 as int]@, i as int);
                lemma_list_has_extend(h2[t.1 as int]@, head@[t.1 as int]@, i as int);
                assert forall|t2: int| 0 <= t2 < i + 1 implies {
                    &&& list_has(head@[tri@[t2].0 as int]@, t2)
                    &&& list_has(head@[tri@[t2].1 as int]@, t2)
                    &&& list_has(head@[tri@[t2].2 as int]@, t2)
                } by {
                    if t2 < i {
                        lemma_list_has_extend(h0[tri@[t2].0 as int]@, head@[tri@[t2].0 as int]@, t2);
                        lemma_list_has_extend(h0[tri@[t2].1 as int]@, head@[tri@[t2].1 as int]@, t2);
                        lemma_list_has_extend(h0[tri@[t2].2 as int]@, head@[tri@[t2].2 as int]@, t2);
                    }
                }
            }
            i = i + 1;
        }

        let mut s = Simplifier {
            pos,
            tri,
            qv,
            qp,
            head,
            dele,
            vis,
            edges: Vec::new(),
            queue: Vec::new(),
            budget,
            dist_ceiling,
            cost_ceiling,
        };
        proof {
            assert forall|i2: int| 0 <= i2 < s.tri@.len() && s.tri_valid(i2) implies {
                &&& list_has(s.head@[s.tri@[i2].0 as int]@, i2)
                &&& list_has(s.head@[s.tri@[i2].1 as int]@, i2)
                &&& list_has(s.head@[s.tri@[i2].2 as int]@, i2)
            } by {}
            assert(s.wf());
        }

        let mut i: usize = 0;
        while i < m
            invariant
                i <= m,
                m == s.tri@.len(),
                s.wf(),
                s.pos@ == mesh.pos@,
                s.tri@ == mesh.tri@,
                s.budget == budget,
                s.dele@.len() == s.pos@.len(),
                forall|v: int| 0 <= v < s.dele@.len() ==> !s.dele@[v],
                forall|v: int| 0 <= v < s.vis@.len() ==> !s.vis@[v],
                forall|t: int|
                    0 <= t < s.qp@.len() ==> face_quadric_rel(
                        mesh.pos@[mesh.tri@[t].0 as int],
                        mesh.pos@[mesh.tri@[t].1 as int],
                        mesh.pos@[mesh.tri@[t].2 as int],
                        #[trigger] s.qp@[t],
                    ),
                s.qp@.len() == s.tri@.len(),
                s.qv@.len() == s.pos@.len(),
                forall|v: int, ii: int, jj: int|
                    0 <= v < s.qv@.len() && 0 <= ii < 4 && 0 <= jj < 4
                        ==> (#[trigger] s.qv@[v].m[ii][jj]) == agg_entry(
                        s.tri@,
                        s.qp@,
                        v,
                        s.tri@.len() as int,
                        ii,
                        jj,
                    ),
                forall|t: int|
                    0 <= t < i ==> {
                        &&& pair_considered(s, s.tri@[t].0 as int, s.tri@[t].1 as int)
                        &&& pair_considered(s, s.tri@[t].1 as int, s.tri@[t].2 as int)
                        &&& pair_considered(s, s.tri@[t].0 as int, s.tri@[t].2 as int)
                    },
                s.dist_ceiling == dist_ceiling,
                s.cost_ceiling == cost_ceiling,
            decreases m - i,
        {
            let t = s.tri[i];
            let ghost es0 = s.edges@;
            s.push_candidate(t.0, t.1);
            let ghost s1 = s;
            s.push_candidate(t.1, t.2);
            let ghost s2 = s;
            s.push_candidate(t.0, t.2);
            proof {
                assert forall|k: int| 0 <= k < es0.len() implies s.edges@[k] == es0[k] by {}
                assert(pair_considered(s, t.0 as int, t.1 as int)) by {
                    if s1.edges@.len() == es0.len() + 1 {
                        assert(s1.edges@.last().v1 == t.0 && s1.edges@.last().v2 == t.1);
                        lemma_edge_seeded_extend(s1.edges@, s.edges@, t.0 as int, t.1 as int);
                    }
                }
                assert(pair_considered(s, t.1 as int, t.2 as int)) by {
                    if s2.edges@.len() == s1.edges@.len() + 1 {
                        assert(s2.edges@.last().v1 == t.1 && s2.edges@.last().v2 == t.2);
                        lemma_edge_seeded_extend(s2.edges@, s.edges@, t.1 as int, t.2 as int);
                    }
                }
                assert(pair_considered(s, t.0 as int, t.2 as int)) by {
                    if s.edges@.len() == s2.edges@.len() + 1 {
                        assert(s.edges@.last().v1 == t.0 && s.edges@.last().v2 == t.2);
                    }
                }
                assert forall|t2: int| 0 <= t2 < i + 1 implies {
                    &&& pair_considered(s, s.tri@[t2].0 as int, s.tri@[t2].1 as int)
                    &&& pair_considered(s, s.tri@[t2].1 as int, s.tri@[t2].2 as int)
                    &&& pair_considered(s, s.tri@[t2].0 as int, s.tri@[t2].2 as int)
                } by {
                    if t2 < i {
                        if edge_seeded(es0, s.tri@[t2].0 as int, s.tri@[t2].1 as int) {
                            lemma_edge_seeded_extend(
                                es0,
                                s.edges@,
                                s.tri@[t2].0 as int,
                                s.tri@[t2].1 as int,
                            );
                        }
                        if edge_seeded(es0, s.tri@[t2].1 as int, s.tri@[t2].2 as int) {
                            lemma_edge_seeded_extend(
                                es0,
                                s.edges@,
                                s.tri@[t2].1 as int,
                                s.tri@[t2].2 as int,
                            );
                        }
                        if edge_seeded(es0, s.tri@[t2].0 as int, s.tri@[t2].2 as int) {
                            lemma_edge_seeded_extend(
                                es0,
                                s.edges@,
                                s.tri@[t2].0 as int,
                                s.tri@[t2].2 as int,
                            );
                        }
                    }
                }
            }
            i = i + 1;
        }
        proof {
            lemma_count_all_valid(s, s.tri@.len() as int);
        }
        Result::Ok(s)
    }
}

} // verus!

verus! {

/// The triangle `t` with every corner equal to `from` relabeled to `to`.
pub open spec fn subst_tri(t: Tri, from: int, to: usize) -> Tri {
    (
        if t.0 == from {
            to
        } else {
            t.0
        },
        if t.1 == from {
            to
        } else {
            t.1
        },
        if t.2 == from {
            to
        } else {
            t.2
        },
    )
}

/// No corner of `t` is flagged deleted.
pub open spec fn tri_live(t: Tri, dele: Seq<bool>) -> bool {
    &&& !dele[t.0 as int]
    &&& !dele[t.1 as int]
    &&& !dele[t.2 as int]
}

/// A collapse of the pair `(a, b)` invalidates exactly the valid triangles
/// containing both endpoints and no others, and leaves every other
/// triangle's validity unchanged.
pub open spec fn collapse_valid_rel(pre: Simplifier, post: Simplifier, a: int, b: int) -> bool {
    forall|i: int|
        0 <= i < pre.tri@.len() ==> (post.tri_valid(i) <==> (pre.tri_valid(i) && !(in_tri(
            pre.tri@[i],
            a,
        ) && in_tri(pre.tri@[i], b))))
}

/// The number of valid triangles containing two given vertices lies between
/// 0 and `n`.
pub proof fn lemma_count_both_bounds(s: Simplifier, a: int, b: int, n: int)
    requires
        n >= 0,
    ensures
        0 <= count_both_to(s, a, b, n) <= n,
    decreases n,
{
    if n > 0 {
        lemma_count_both_bounds(s, a, b, n - 1);
    }
}

impl Simplifier {
    /// Performs the collapse of candidate `ei`: appends the merged vertex
    /// at the candidate's merge point, relabels the surviving triangles
    /// around both endpoints while updating the affected aggregate
    /// quadrics, retires the triangles shared by both endpoints, flags both
    /// endpoints deleted, regenerates candidates toward the surviving
    /// neighbors, and pays the triangles it removed out of the budget.
    #[verifier::loop_isolation(false)]
    #[verifier::rlimit(100)]
    pub fn collapse(&mut self, ei: usize)
        requires
            old(self).wf(),
            ei < old(self).edges@.len(),
            !old(self).dele@[old(self).edges@[ei as int].v1 as int],
            !old(self).dele@[old(self).edges@[ei as int].v2 as int],
            count_both_to(
                *old(self),
                old(self).edges@[ei as int].v1 as int,
                old(self).edges@[ei as int].v2 as int,
                old(self).tri@.len() as int,
            ) <= old(self).budget,
            forall|v: int| 0 <= v < old(self).vis@.len() ==> !old(self).vis@[v],
        ensures
            final(self).wf(),
            final(self).budget == old(self).budget - count_both_to(
                *old(self),
                old(self).edges@[ei as int].v1 as int,
                old(self).edges@[ei as int].v2 as int,
                old(self).tri@.len() as int,
            ),
            final(self).tri@.len() == old(self).tri@.len(),
            final(self).pos@.len() == old(self).pos@.len() + 1,
            forall|v: int| 0 <= v < final(self).vis@.len() ==> !final(self).vis@[v],
            collapse_valid_rel(
                *old(self),
                *final(self),
                old(self).edges@[ei as int].v1 as int,
                old(self).edges@[ei as int].v2 as int,
            ),
            final(self).valid_count() == old(self).valid_count() - count_both_to(
                *old(self),
                old(self).edges@[ei as int].v1 as int,
                old(self).edges@[ei as int].v2 as int,
                old(self).tri@.len() as int,
            ),
    {
        let ghost o = *old(self);
        let e = self.edges[ei];
        let a = e.v1;
        let b = e.v2;
        let ghost tlen = o.tri@.len() as int;
        // The budget pays for what this collapse actually removes: the
        // valid triangles shared by both endpoints.
        let shared = self.count_shared(a, b);

        self.qv.push(Mat::zero());
        self.pos.push(e.v);
        self.dele.push(false);
        self.vis.push(false);
        let vnew = self.pos.len() - 1;
        let mut head_v: Vec<usize> = Vec::new();
        let mut edge_v: Vec<usize> = Vec::new();

        // Surviving triangles around `a` are relabeled; triangles shared
        // with `b` lose their contribution to their third corner.
        let mut k: usize = 0;
        while k < self.head[a].len()
            invariant
                k <= self.head@[a as int]@.len(),
                self.pos@ == o.pos@.push(e.v),
                self.qv@.len() == o.pos@.len() + 1,
                self.dele@ == o.dele@.push(false),
                self.vis@ == o.vis@.push(false),
                self.head@ == o.head@,
                self.tri@.len() == tlen,
                self.qp@.len() == tlen,
                self.edges@ == o.edges@,
                self.queue@ == o.queue@,
                self.budget == o.budget,
                self.dist_ceiling == o.dist_ceiling,
                self.cost_ceiling == o.cost_ceiling,
                forall|i: int|
                    0 <= i < tlen ==> tri_in_range(self.tri@[i], self.pos@.len() as int),
                forall|idx: int| 0 <= idx < head_v@.len() ==> head_v@[idx] < tlen,
                forall|idx: int| 0 <= idx < edge_v@.len() ==> edge_v@[idx] < o.pos@.len(),
                forall|i: int|
                    #![trigger self.tri@[i]]
                    0 <= i < tlen ==> {
                        ||| self.tri@[i] == o.tri@[i]
                        ||| {
                            &&& tri_live(o.tri@[i], self.dele@)
                            &&& in_tri(o.tri@[i], a as int)
                            &&& !in_tri(o.tri@[i], b as int)
                            &&& self.tri@[i] == subst_tri(o.tri@[i], a as int, vnew)
                            &&& list_has(head_v@, i)
                        }
                    },
                forall|kk: int|
                    0 <= kk < k ==> {
                        let i = (#[trigger] self.head@[a as int]@[kk]) as int;
                        (tri_live(o.tri@[i], self.dele@) && in_tri(o.tri@[i], a as int)
                            && !in_tri(o.tri@[i], b as int)) ==> self.tri@[i] == subst_tri(
                            o.tri@[i],
                            a as int,
                            vnew,
                        )
                    },
            decreases self.head@[a as int]@.len() - k,
        {
            let ti = self.head[a][k];
            let t = self.tri[ti];
            proof {
                assert(vnew == o.pos@.len());
                assert(a < o.pos@.len() && b < o.pos@.len());
            }
            let live = !self.dele[t.0] && !self.dele[t.1] && !self.dele[t.2];
            if live && (t.0 == a || t.1 == a || t.2 == a) {
                proof {
                    assert(self.tri@[ti as int] == o.tri@[ti as int] || self.tri@[ti as int]
                        == subst_tri(o.tri@[ti as int], a as int, vnew));
                    assert(t == o.tri@[ti as int]) by {
                        if t != o.tri@[ti as int] {
                            assert(t == subst_tri(o.tri@[ti as int], a as int, vnew));
                            assert(!in_tri(t, a as int));
                        }
                    }
                }
                if !(t.0 == b || t.1 == b || t.2 == b) {
                    let c0 = if t.0 == a {
                        vnew
                    } else {
                        t.0
                    };
                    let c1 = if t.1 == a {
                        vnew
                    } else {
                        t.1
                    };
                    let c2 = if t.2 == a {
                        vnew
                    } else {
                        t.2
                    };
                    let qk = cal_q(&self.pos[c0], &self.pos[c1], &self.pos[c2]);
                    let dq = qk.sub(&self.qp[ti]);
                    let ghost hv0 = head_v@;
                    head_v.push(ti);
                    proof {
                        assert forall|i2: int| list_has(hv0, i2) implies list_has(
                            head_v@,
                            i2,
                        ) by {
                            lemma_list_has_extend(hv0, head_v@, i2);
                        }
                    }
                    let accn = self.qv[vnew].add(&qk);
                    self.qv[vnew] = accn;
                    if t.0 != a {
                        let acc = self.qv[t.0].add(&dq);
                        self.qv[t.0] = acc;
                        edge_v.push(t.0);
                    }
                    if t.1 != a {
                        let acc = self.qv[t.1].add(&dq);
                        self.qv[t.1] = acc;
                        edge_v.push(t.1);
                    }
                    if t.2 != a {
                        let acc = self.qv[t.2].add(&dq);
                        self.qv[t.2] = acc;
                        edge_v.push(t.2);
                    }
                    self.qp[ti] = qk;
                    self.tri[ti] = (c0, c1, c2);
                    proof {
                        assert(self.tri@[ti as int] == subst_tri(o.tri@[ti as int], a as int, vnew));
                        assert(list_has(head_v@, ti as int)) by {
                            assert(head_v@[head_v@.len() - 1] == ti);
                        }
                    }
                } else {
                    if t.0 != a && t.0 != b {
                        let acc = self.qv[t.0].sub(&self.qp[ti]);
                        self.qv[t.0] = acc;
                        edge_v.push(t.0);
                    } else if t.1 != a && t.1 != b {
                        let acc = self.qv[t.1].sub(&self.qp[ti]);
                        self.qv[t.1] = acc;
                        edge_v.push(t.1);
                    } else if t.2 != a && t.2 != b {
                        let acc = self.qv[t.2].sub(&self.qp[ti]);
                        self.qv[t.2] = acc;
                        edge_v.push(t.2);
                    }
                }
            }
            k = k + 1;
        }
        proof {
            assert forall|i: int|
                0 <= i < tlen && tri_live(o.tri@[i], self.dele@) && in_tri(o.tri@[i], a as int)
                    && !in_tri(o.tri@[i], b as int) implies self.tri@[i] == subst_tri(
                o.tri@[i],
                a as int,
                vnew,
            ) by {
                assert(o.tri_valid(i));
                assert(in_tri(o.tri@[i], a as int));
                assert(list_has(o.head@[a as int]@, i));
                let kk = choose|kk: int|
                    0 <= kk < o.head@[a as int]@.len() && o.head@[a as int]@[kk] == i;
                assert(self.head@[a as int]@[kk] == i);
            }
        }
        let ghost m1 = *self;

        // Surviving triangles around `b` not shared with `a` are relabeled
        // the same way; shared ones were handled above.
        let mut k: usize = 0;
        while k < self.head[b].len()
            invariant
                k <= self.head@[b as int]@.len(),
                self.pos@ == o.pos@.push(e.v),
                self.qv@.len() == o.pos@.len() + 1,
                self.dele@ == o.dele@.push(false),
                self.vis@ == o.vis@.push(false),
                self.head@ == o.head@,
                self.tri@.len() == tlen,
                self.qp@.len() == tlen,
                self.edges@ == o.edges@,
                self.queue@ == o.queue@,
                self.budget == o.budget,
                self.dist_ceiling == o.dist_ceiling,
                self.cost_ceiling == o.cost_ceiling,
                forall|i: int|
                    0 <= i < tlen ==> tri_in_range(self.tri@[i], self.pos@.len() as int),
                forall|idx: int| 0 <= idx < head_v@.len() ==> head_v@[idx] < tlen,
                forall|idx: int| 0 <= idx < edge_v@.len() ==> edge_v@[idx] < o.pos@.len(),
                forall|i: int|
                    #![trigger self.tri@[i]]
                    0 <= i < tlen ==> {
                        ||| self.tri@[i] == m1.tri@[i]
                        ||| {
                            &&& tri_live(m1.tri@[i], self.dele@)
                            &&& in_tri(m1.tri@[i], b as int)
                            &&& !in_tri(m1.tri@[i], a as int)
                            &&& self.tri@[i] == subst_tri(m1.tri@[i], b as int, vnew)
                            &&& list_has(head_v@, i)
                        }
                    },
                forall|i: int|
                    #![trigger self.tri@[i]]
                    0 <= i < tlen && self.tri@[i] != o.tri@[i] ==> list_has(head_v@, i),
                forall|kk: int|
                    0 <= kk < k ==> {
                        let i = (#[trigger] self.head@[b as int]@[kk]) as int;
                        (tri_live(m1.tri@[i], self.dele@) && in_tri(m1.tri@[i], b as int)
                            && !in_tri(m1.tri@[i], a as int)) ==> self.tri@[i] == subst_tri(
                            m1.tri@[i],
                            b as int,
                            vnew,
                        )
                    },
            decreases self.head@[b as int]@.len() - k,
        {
            let ti = self.head[b][k];
            let t = self.tri[ti];
            proof {
                assert(vnew == o.pos@.len());
                assert(a < o.pos@.len() && b < o.pos@.len());
            }
            let live = !self.dele[t.0] && !self.dele[t.1] && !self.dele[t.2];
            if live && (t.0 == b || t.1 == b || t.2 == b) {
                proof {
                    assert(self.tri@[ti as int] == m1.tri@[ti as int] || self.tri@[ti as int]
                        == subst_tri(m1.tri@[ti as int], b as int, vnew));
                    assert(t == m1.tri@[ti as int]) by {
                        if t != m1.tri@[ti as int] {
                            assert(t == subst_tri(m1.tri@[ti as int], b as int, vnew));
                            assert(!in_tri(t, b as int));
                        }
                    }
                }
                if !(t.0 == a || t.1 == a || t.2 == a) {
                    let c0 = if t.0 == b {
                        vnew
                    } else {
                        t.0
                    };
                    let c1 = if t.1 == b {
                        vnew
                    } else {
                        t.1
                    };
                    let c2 = if t.2 == b {
                        vnew
                    } else {
                        t.2
                    };
                    let qk = cal_q(&self.pos[c0], &self.pos[c1], &self.pos[c2]);
                    let dq = qk.sub(&self.qp[ti]);
                    let ghost hv0 = head_v@;
                    head_v.push(ti);
                    proof {
                        assert forall|i2: int| list_has(hv0, i2) implies list_has(
                            head_v@,
                            i2,
                        ) by {
                            lemma_list_has_extend(hv0, head_v@, i2);
                        }
                    }
                    let accn = self.qv[vnew].add(&qk);
                    self.qv[vnew] = accn;
                    if t.0 != b {
                        let acc = self.qv[t.0].add(&dq);
                        self.qv[t.0] = acc;
                        edge_v.push(t.0);
                    }
                    if t.1 != b {
                        let acc = self.qv[t.1].add(&dq);
                        self.qv[t.1] = acc;
                        edge_v.push(t.1);
                    }
                    if t.2 != b {
                        let acc = self.qv[t.2].add(&dq);
                        self.qv[t.2] = acc;
                        edge_v.push(t.2);
                    }
                    self.qp[ti] = qk;
                    self.tri[ti] = (c0, c1, c2);
                    proof {
                        assert(self.tri@[ti as int] == subst_tri(
                            m1.tri@[ti as int],
                            b as int,
                            vnew,
                        ));
                        assert(list_has(head_v@, ti as int)) by {
                            assert(head_v@[head_v@.len() - 1] == ti);
                        }
                    }
                }
            }
            k = k + 1;
        }
        proof {
            assert forall|i: int|
                0 <= i < tlen && tri_live(m1.tri@[i], self.dele@) && in_tri(m1.tri@[i], b as int)
                    && !in_tri(m1.tri@[i], a as int) implies self.tri@[i] == subst_tri(
                m1.tri@[i],
                b as int,
                vnew,
            ) by {
                assert(vnew == o.pos@.len());
                assert(m1.tri@[i] == o.tri@[i] || m1.tri@[i] == subst_tri(
                    o.tri@[i],
                    a as int,
                    vnew,
                ));
                assert(m1.tri@[i] == o.tri@[i]) by {
                    if m1.tri@[i] != o.tri@[i] {
                        assert(m1.tri@[i] == subst_tri(o.tri@[i], a as int, vnew));
                        assert(!in_tri(m1.tri@[i], b as int));
                    }
                }
                assert(o.tri_valid(i));
                assert(list_has(o.head@[b as int]@, i));
                let kk = choose|kk: int|
                    0 <= kk < o.head@[b as int]@.len() && o.head@[b as int]@[kk] == i;
                assert(self.head@[b as int]@[kk] == i);
            }
        }
        let ghost m2 = *self;

        let ghost hv = head_v@;
        self.dele[a] = true;
        self.dele[b] = true;
        self.head.push(head_v);
        self.budget = self.budget - shared;
        let ghost m3 = *self;

        proof {
            // The exact validity relation to the entry state.
            assert forall|i: int| 0 <= i < tlen implies (self.tri_valid(i) <==> (o.tri_valid(i)
                && !(in_tri(o.tri@[i], a as int) && in_tri(o.tri@[i], b as int)))) by {
                if o.tri_valid(i) {
                    if in_tri(o.tri@[i], a as int) && in_tri(o.tri@[i], b as int) {
                        assert(self.tri@[i] == o.tri@[i]);
                        assert(!self.tri_valid(i));
                    } else if in_tri(o.tri@[i], a as int) {
                        assert(self.tri@[i] == subst_tri(o.tri@[i], a as int, vnew));
                        assert(self.tri_valid(i));
                    } else if in_tri(o.tri@[i], b as int) {
                        assert(m1.tri@[i] == o.tri@[i]);
                        assert(self.tri@[i] == subst_tri(o.tri@[i], b as int, vnew));
                        assert(self.tri_valid(i));
                    } else {
                        assert(self.tri@[i] == o.tri@[i]);
                        assert(self.tri_valid(i));
                    }
                } else {
                    assert(self.tri@[i] == o.tri@[i]);
                    assert(!self.tri_valid(i));
                }
            }
            assert(collapse_valid_rel(o, *self, a as int, b as int));
            // Incidence completeness for the new state.
            assert forall|i: int| 0 <= i < self.tri@.len() && self.tri_valid(i) implies {
                &&& list_has(self.head@[self.tri@[i].0 as int]@, i)
                &&& list_has(self.head@[self.tri@[i].1 as int]@, i)
                &&& list_has(self.head@[self.tri@[i].2 as int]@, i)
            } by {
                assert(o.tri_valid(i));
                assert(list_has(o.head@[o.tri@[i].0 as int]@, i));
                assert(list_has(o.head@[o.tri@[i].1 as int]@, i));
                assert(list_has(o.head@[o.tri@[i].2 as int]@, i));
                assert(self.head@[vnew as int]@ == hv);
                assert(forall|v: int| 0 <= v < o.head@.len() ==> self.head@[v] == o.head@[v]);
                assert(m2.tri@[i] == self.tri@[i]);
                if self.tri@[i] != o.tri@[i] {
                    assert(list_has(hv, i));
                    if m1.tri@[i] != o.tri@[i] {
                        assert(m1.tri@[i] == subst_tri(o.tri@[i], a as int, vnew));
                        assert(m2.tri@[i] == m1.tri@[i] || m2.tri@[i] == subst_tri(
                            m1.tri@[i],
                            b as int,
                            vnew,
                        ));
                        assert(self.tri@[i] == subst_tri(o.tri@[i], a as int, vnew));
                    } else {
                        assert(m2.tri@[i] == m1.tri@[i] || m2.tri@[i] == subst_tri(
                            m1.tri@[i],
                            b as int,
                            vnew,
                        ));
                        assert(self.tri@[i] == subst_tri(o.tri@[i], b as int, vnew));
                    }
                }
            }
            assert(self.wf());
            lemma_count_collapse(o, *self, a as int, b as int, tlen);
        }

        // Candidates are regenerated toward each distinct live neighbor of
        // the merged vertex; the transient markers suppress duplicates and
        // are cleared again below.
        let mut idx: usize = 0;
        while idx < edge_v.len()
            invariant
                idx <= edge_v@.len(),
                self.wf(),
                self.pos@ == m3.pos@,
                self.tri@ == m3.tri@,
                self.dele@ == m3.dele@,
                self.head@ == m3.head@,
                self.qp@ == m3.qp@,
                self.qv@ == m3.qv@,
                self.budget == m3.budget,
                self.vis@.len() == m3.vis@.len(),
                forall|idx2: int| 0 <= idx2 < edge_v@.len() ==> edge_v@[idx2] < o.pos@.len(),
                forall|v: int|
                    0 <= v < self.vis@.len() && self.vis@[v] ==> list_has(edge_v@, v),
            decreases edge_v@.len() - idx,
        {
            let vi = edge_v[idx];
            if !self.dele[vi] && !self.vis[vi] {
                self.push_candidate(vnew, vi);
                self.vis[vi] = true;
                proof {
                    assert(list_has(edge_v@, vi as int)) by {
                        assert(edge_v@[idx as int] == vi);
                    }
                    lemma_incidence_congruent(m3, *self);
                    assert(self.wf());
                }
            }
            idx = idx + 1;
        }
        proof {
            assert forall|v: int| 0 <= v < self.vis@.len() && self.vis@[v] implies exists|kk: int|
                0 <= kk < edge_v@.len() && edge_v@[kk] == v by {
                assert(list_has(edge_v@, v));
                let kk0 = choose|kk0: int| 0 <= kk0 < edge_v@.len() && edge_v@[kk0] == v;
                assert(0 <= kk0 < edge_v@.len() && edge_v@[kk0] == v);
            }
        }
        let mut idx: usize = 0;
        while idx < edge_v.len()
            invariant
                idx <= edge_v@.len(),
                self.wf(),
                self.pos@ == m3.pos@,
                self.tri@ == m3.tri@,
                self.dele@ == m3.dele@,
                self.head@ == m3.head@,
                self.qp@ == m3.qp@,
                self.qv@ == m3.qv@,
                self.budget == m3.budget,
                self.vis@.len() == m3.vis@.len(),
                forall|idx2: int| 0 <= idx2 < edge_v@.len() ==> edge_v@[idx2] < o.pos@.len(),
                forall|v: int|
                    0 <= v < self.vis@.len() && self.vis@[v] ==> exists|kk: int|
                        idx <= kk < edge_v@.len() && edge_v@[kk] == v,
            decreases edge_v@.len() - idx,
        {
            let vi = edge_v[idx];
            self.vis[vi] = false;
            proof {
                lemma_incidence_congruent(m3, *self);
                assert(self.wf());
                assert forall|v: int| 0 <= v < self.vis@.len() && self.vis@[v] implies exists|
                    kk: int,
                |
                    idx + 1 <= kk < edge_v@.len() && edge_v@[kk] == v by {
                    let kk0 = choose|kk0: int|
                        idx <= kk0 < edge_v@.len() && edge_v@[kk0] == v;
                    assert(kk0 != idx);
                }
            }
            idx = idx + 1;
        }
        proof {
            lemma_incidence_congruent(m3, *self);
            lemma_count_congruent(m3, *self, tlen);
            lemma_count_congruent(o, *old(self), tlen);
            assert(self.valid_count_to(tlen) == o.valid_count_to(tlen) - count_both_to(
                o,
                a as int,
                b as int,
                tlen,
            ));
        }
    }
}

} // verus!

verus! {

impl Simplifier {
    /// The collapse loop: while the budget allows another collapse and
    /// pending candidates remain, pops a cheapest candidate, discards it if
    /// an endpoint is already gone or if what it would remove does not fit
    /// the remaining budget, and otherwise collapses it. The loop runs to
    /// exhaustion, the valid triangle count never falls by more than the
    /// budget it spends, and with a budget below two nothing changes at
    /// all.
    pub fn run(&mut self)
        requires
            old(self).wf(),
            forall|v: int| 0 <= v < old(self).vis@.len() ==> !old(self).vis@[v],
        ensures
            final(self).wf(),
            final(self).tri@.len() == old(self).tri@.len(),
            final(self).valid_count() <= old(self).valid_count(),
            final(self).valid_count() >= old(self).valid_count() - (old(self).budget
                - final(self).budget),
            final(self).budget <= old(self).budget,
            final(self).budget < 2 || final(self).queue@.len() == 0,
            old(self).budget < 2 ==> final(self).tri@ == old(self).tri@ && final(self).dele@
                == old(self).dele@ && final(self).valid_count() == old(self).valid_count(),
    {
        let ghost tlen = old(self).tri@.len() as int;
        while self.budget >= 2 && self.queue.len() > 0
            invariant
                self.wf(),
                forall|v: int| 0 <= v < self.vis@.len() ==> !self.vis@[v],
                self.tri@.len() == tlen,
                self.valid_count() <= old(self).valid_count(),
                self.valid_count() >= old(self).valid_count() - (old(self).budget - self.budget),
                self.budget <= old(self).budget,
                old(self).budget < 2 ==> self.tri@ == old(self).tri@ && self.dele@ == old(
                    self,
                ).dele@,
            decreases self.budget, self.queue@.len(),
        {
            let ghost pre_pop = *self;
            let st_opt = self.pop_min();
            proof {
                lemma_count_congruent(pre_pop, *self, tlen);
            }
            match st_opt {
                Option::Some(st) => {
                    let e = self.edges[st.index];
                    if !self.dele[e.v1] && !self.dele[e.v2] {
                        let shared = self.count_shared(e.v1, e.v2);
                        if 1 <= shared && shared <= self.budget {
                            let ghost pre = *self;
                            self.collapse(st.index);
                            proof {
                                lemma_count_both_bounds(pre, e.v1 as int, e.v2 as int, tlen);
                                assert(self.valid_count() <= pre.valid_count());
                            }
                        }
                    }
                },
                Option::None => {},
            }
        }
        proof {
            if old(self).budget < 2 {
                lemma_count_congruent(*old(self), *self, tlen);
            }
        }
    }
}

/// Output position `p` is the position of some live input vertex.
pub open spec fn from_live_input(outp: Seq<Vct>, inp: Seq<Vct>, dele: Seq<bool>, p: int) -> bool {
    exists|c: int| 0 <= c < inp.len() && !dele[c] && outp[p] == inp[c]
}

/// Some triangle among `tri` references vertex index `p`.
pub open spec fn referenced(tri: Seq<Tri>, p: int) -> bool {
    exists|t: int| 0 <= t < tri.len() && in_tri(#[trigger] tri[t], p)
}

/// Every vertex index below `npos` is referenced by some triangle.
pub open spec fn all_referenced(tri: Seq<Tri>, npos: int) -> bool {
    forall|p: int| 0 <= p < npos ==> #[trigger] referenced(tri, p)
}

/// Maps a corner to its dense output index, assigning the next fresh index
/// and emitting the corresponding position on first sighting.
fn remap_corner(id: &mut Vec<Option<usize>>, new_pos: &mut Vec<Vct>, pos: &Vec<Vct>, c: usize) -> (r:
    usize)
    requires
        c < old(id)@.len(),
        old(id)@.len() == pos@.len(),
        forall|v: int|
            0 <= v < old(id)@.len() && old(id)@[v] is Some ==> (old(id)@[v]->Some_0)
                < old(new_pos)@.len(),
    ensures
        final(id)@.len() == old(id)@.len(),
        final(new_pos)@.len() >= old(new_pos)@.len(),
        r < final(new_pos)@.len(),
        final(id)@[c as int] == Option::Some(r),
        forall|v: int| 0 <= v < old(id)@.len() && v != c ==> final(id)@[v] == old(id)@[v],
        forall|v: int|
            0 <= v < final(id)@.len() && final(id)@[v] is Some ==> (final(id)@[v]->Some_0)
                < final(new_pos)@.len(),
        old(id)@[c as int] is Some ==> final(new_pos)@ == old(new_pos)@ && final(id)@ == old(id)@
            && r == old(id)@[c as int]->Some_0,
        old(id)@[c as int] is None ==> final(new_pos)@ == old(new_pos)@.push(pos@[c as int]) && r
            == old(new_pos)@.len(),
{
    let existing = id[c];
    match existing {
        Option::Some(x) => {
            proof {
                assert(final(id)@ =~= old(id)@);
            }
            x
        },
        Option::None => {
            let x = new_pos.len();
            new_pos.push(pos[c]);
            id[c] = Option::Some(x);
            x
        },
    }
}

impl Simplifier {
    /// Compaction: keeps the valid triangles in order, renumbers every
    /// referenced vertex densely in first-seen order, and emits the
    /// corresponding positions. Every output index is in range, and every
    /// output position is referenced by at least one output triangle.
    pub fn finish(&self) -> (out: Mesh)
        requires
            self.wf(),
        ensures
            out.tri@.len() == self.valid_count(),
            out.wf(),
            all_referenced(out.tri@, out.pos@.len() as int),
            forall|p: int|
                0 <= p < out.pos@.len() ==> #[trigger] from_live_input(
                    out.pos@,
                    self.pos@,
                    self.dele@,
                    p,
                ),
    {
        let mut new_pos: Vec<Vct> = Vec::new();
        let mut new_tri: Vec<Tri> = Vec::new();
        let mut id: Vec<Option<usize>> = Vec::new();
        let n = self.pos.len();
        let mut i: usize = 0;
        while i < n
            invariant
                i <= n,
                id@.len() == i,
                forall|v: int| 0 <= v < i ==> id@[v] is None,
            decreases n - i,
        {
            id.push(Option::None);
            i = i + 1;
        }
        let mut i: usize = 0;
        while i < self.tri.len()
            invariant
                self.wf(),
                i <= self.tri@.len(),
                n == self.pos@.len(),
                id@.len() == n,
                new_tri@.len() == self.valid_count_to(i as int),
                forall|v: int|
                    0 <= v < n && id@[v] is Some ==> (id@[v]->Some_0) < new_pos@.len(),
                forall|t: int|
                    0 <= t < new_tri@.len() ==> tri_in_range(new_tri@[t], new_pos@.len() as int),
                all_referenced(new_tri@, new_pos@.len() as int),
                forall|p: int|
                    0 <= p < new_pos@.len() ==> #[trigger] from_live_input(
                        new_pos@,
                        self.pos@,
                        self.dele@,
                        p,
                    ),
            decreases self.tri@.len() - i,
        {
            let t = self.tri[i];
            if !self.dele[t.0] && !self.dele[t.1] && !self.dele[t.2] {
                let ghost np0 = new_pos@;
                let ghost nt0 = new_tri@;
                let g0 = remap_corner(&mut id, &mut new_pos, &self.pos, t.0);
                let ghost np1 = new_pos@;
                let g1 = remap_corner(&mut id, &mut new_pos, &self.pos, t.1);
                let ghost np2 = new_pos@;
                let g2 = remap_corner(&mut id, &mut new_pos, &self.pos, t.2);
                new_tri.push((g0, g1, g2));
                proof {
                    assert forall|p: int| 0 <= p < new_pos@.len() implies #[trigger] from_live_input(
                        new_pos@,
                        self.pos@,
                        self.dele@,
                        p,
                    ) by {
                        if p < np0.len() {
                            assert(from_live_input(np0, self.pos@, self.dele@, p));
                            let c = choose|c: int|
                                0 <= c < self.pos@.len() && !self.dele@[c] && np0[p]
                                    == self.pos@[c];
                            assert(new_pos@[p] == np0[p]);
                            assert(new_pos@[p] == self.pos@[c]);
                        } else if p < np1.len() {
                            assert(new_pos@[p] == self.pos@[t.0 as int]);
                        } else if p < np2.len() {
                            assert(new_pos@[p] == self.pos@[t.1 as int]);
                        } else {
                            assert(new_pos@[p] == self.pos@[t.2 as int]);
                        }
                    }
                }
                proof {
                    assert forall|p: int| 0 <= p < new_pos@.len() implies referenced(
                        new_tri@,
                        p,
                    ) by {
                        if p < np0.len() {
                            assert(referenced(nt0, p));
                            let w = choose|w: int| 0 <= w < nt0.len() && in_tri(#[trigger] nt0[w], p);
                            assert(new_tri@[w] == nt0[w]);
                            assert(in_tri(new_tri@[w], p));
                        } else {
                            assert(p == g0 || p == g1 || p == g2);
                            assert(in_tri(new_tri@[new_tri@.len() - 1], p));
                        }
                    }
                }
            }
            i = i + 1;
        }
        Mesh { pos: new_pos, tri: new_tri }
    }
}

/// When exactly two valid triangles share the collapsed pair — the standard
/// interior-edge situation, and the amount the budget is charged — a
/// collapse removes exactly two triangles.
pub proof fn law_interior_collapse_removes_two(pre: Simplifier, post: Simplifier, a: int, b: int)
    requires
        collapse_valid_rel(pre, post, a, b),
        post.tri@.len() == pre.tri@.len(),
        count_both_to(pre, a, b, pre.tri@.len() as int) == 2,
    ensures
        post.valid_count() == pre.valid_count() - 2,
{
    lemma_count_collapse(pre, post, a, b, pre.tri@.len() as int);
}

impl Mesh {
    /// Reduces the mesh, removing approximately `ratio` (fixed-point, in
    /// `[0, 1)`) of its triangles, with both safety ceilings disabled.
    /// Rejects exactly the inputs whose triangles index out of range. The
    /// output never has more triangles than the input and never loses more
    /// than the removal budget `round(count * ratio)`, its triangles index
    /// inside its position array, every output position is referenced, and
    /// a zero ratio leaves the triangle count unchanged.
    pub fn simplify(&self, ratio: i64) -> (r: Result<Mesh, SimplifyError>)
        requires
            0 <= ratio < FX_ONE,
        ensures
            r is Ok <==> self.wf(),
            r is Err ==> r->Err_0 == SimplifyError::InvalidInputTopology,
            r is Ok ==> {
                let out = r->Ok_0;
                &&& out.tri@.len() <= self.tri@.len()
                &&& out.wf()
                &&& all_referenced(out.tri@, out.pos@.len() as int)
                &&& out.tri@.len() >= self.tri@.len() - budget_spec(
                    self.tri@.len() as int,
                    ratio as int,
                )
                &&& ratio == 0 ==> out.tri@.len() == self.tri@.len()
            },
    {
        self.simplify_with(ratio, i64::MAX, i64::MAX)
    }

    /// `simplify` with the two safety ceilings exposed: candidates whose
    /// endpoints are `dist_ceiling` or further apart (squared), or whose
    /// cost reaches `cost_ceiling`, are never generated.
    pub fn simplify_with(&self, ratio: i64, dist_ceiling: i64, cost_ceiling: i64) -> (r: Result<
        Mesh,
        SimplifyError,
    >)
        requires
            0 <= ratio < FX_ONE,
        ensures
            r is Ok <==> self.wf(),
            r is Err ==> r->Err_0 == SimplifyError::InvalidInputTopology,
            r is Ok ==> {
                let out = r->Ok_0;
                &&& out.tri@.len() <= self.tri@.len()
                &&& out.wf()
                &&& all_referenced(out.tri@, out.pos@.len() as int)
                &&& out.tri@.len() >= self.tri@.len() - budget_spec(
                    self.tri@.len() as int,
                    ratio as int,
                )
                &&& ratio == 0 ==> out.tri@.len() == self.tri@.len()
            },
    {
        let s0 = Simplifier::new(self, ratio, dist_ceiling, cost_ceiling);
        match s0 {
            Result::Err(e) => Result::Err(e),
            Result::Ok(mut s) => {
                let ghost tlen = self.tri@.len() as int;
                proof {
                    if ratio == 0 {
                        assert(budget_spec(tlen, 0) == 0) by {
                            assert(tlen * 0 == 0);
                            assert(0x8000_0000int / 0x1_0000_0000int == 0);
                        }
                    }
                }
                let ghost s_init = s;
                s.run();
                proof {
                    if ratio == 0 {
                        lemma_count_congruent(s_init, s, tlen);
                    }
                }
                let out = s.finish();
                Result::Ok(out)
            },
        }
    }
}

} // verus!
