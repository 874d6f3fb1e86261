use mesh_simplification::mat::Mat;
use mesh_simplification::mesh::{cal_q, Mesh, Simplifier, SimplifyError};
use mesh_simplification::vct::Vct;

fn fx(v: f64) -> i64 {
    (v * 4294967296.0).round() as i64
}

fn tetrahedron() -> Mesh {
    let pos = vec![
        Vct::new(fx(1.), fx(1.), fx(1.)),
        Vct::new(fx(1.), fx(-1.), fx(-1.)),
        Vct::new(fx(-1.), fx(1.), fx(-1.)),
        Vct::new(fx(-1.), fx(-1.), fx(1.)),
    ];
    let tri = vec![(0, 1, 2), (0, 3, 1), (0, 2, 3), (1, 3, 2)];
    Mesh::new(pos, tri)
}

fn quad() -> Mesh {
    let pos = vec![
        Vct::new(fx(0.), fx(0.), fx(0.)),
        Vct::new(fx(1.), fx(0.), fx(0.)),
        Vct::new(fx(1.), fx(1.), fx(0.)),
        Vct::new(fx(0.), fx(1.), fx(0.)),
    ];
    // Both triangles share the diagonal 0-2, and it is seeded first.
    let tri = vec![(0, 2, 1), (0, 2, 3)];
    Mesh::new(pos, tri)
}

#[test]
fn tetrahedron_half_ratio() {
    let m = tetrahedron();
    let out = m.simplify(fx(0.5)).unwrap();
    assert_eq!(out.tri.len(), 2);
    assert!(out.pos.len() <= 3);
    for &(a, b, c) in out.tri.iter() {
        assert!(a < out.pos.len() && b < out.pos.len() && c < out.pos.len());
    }
}

#[test]
fn quad_full_collapse() {
    let m = quad();
    let out = m.simplify(fx(0.9)).unwrap();
    assert_eq!(out.tri.len(), 0);
    for p in out.pos.iter() {
        // Fixed-point scalars are always finite values; spot-check range.
        assert!(p.x.abs() <= fx(2.) && p.y.abs() <= fx(2.) && p.z.abs() <= fx(2.));
    }
}

#[test]
fn zero_ratio_is_identity() {
    let m = tetrahedron();
    let out = m.simplify(0).unwrap();
    assert_eq!(out.tri, m.tri);
    assert_eq!(out.pos, m.pos);
}

#[test]
fn out_of_range_index_is_rejected() {
    let m = Mesh::new(vec![Vct::zero(), Vct::one()], vec![(0, 1, 2)]);
    assert!(matches!(m.simplify(0), Err(SimplifyError::InvalidInputTopology)));
}

#[test]
fn collapse_step_removes_two() {
    let m = tetrahedron();
    let mut s = Simplifier::new(&m, fx(0.5), i64::MAX, i64::MAX).unwrap();
    assert_eq!(s.count_valid_triangles(), 4);
    assert_eq!(s.budget, 2);
    let st = s.pop_min().unwrap();
    let e = s.edges[st.index];
    assert!(!s.dele[e.v1] && !s.dele[e.v2]);
    s.collapse(st.index);
    assert_eq!(s.count_valid_triangles(), 2);
    assert_eq!(s.budget, 0);
    // Both endpoints are gone for good; the merged vertex is live.
    assert!(s.dele[e.v1] && s.dele[e.v2]);
    assert!(!s.dele[s.pos.len() - 1]);
}

fn aggregate_from_scratch(s: &Simplifier, v: usize) -> Mat {
    let mut sum = Mat::zero();
    for i in 0..s.tri.len() {
        let (a, b, c) = s.tri[i];
        let valid = !s.dele[a] && !s.dele[b] && !s.dele[c];
        if valid && (a == v || b == v || c == v) {
            sum = sum.add(&s.qp[i]);
        }
    }
    sum
}

#[test]
fn quadric_additivity() {
    let m = tetrahedron();
    let mut s = Simplifier::new(&m, fx(0.5), i64::MAX, i64::MAX).unwrap();
    // Before any collapse: every aggregate equals the sum of the face
    // quadrics of its valid incident triangles, exactly.
    for v in 0..s.pos.len() {
        if !s.dele[v] {
            assert_eq!(s.qv[v].m, aggregate_from_scratch(&s, v).m);
        }
    }
    s.run();
    for v in 0..s.pos.len() {
        if !s.dele[v] {
            assert_eq!(s.qv[v].m, aggregate_from_scratch(&s, v).m);
        }
    }
}

#[test]
fn stored_face_quadrics_match() {
    let m = tetrahedron();
    let s = Simplifier::new(&m, 0, i64::MAX, i64::MAX).unwrap();
    for i in 0..s.tri.len() {
        let (a, b, c) = s.tri[i];
        let q = cal_q(&s.pos[a], &s.pos[b], &s.pos[c]);
        assert_eq!(s.qp[i].m, q.m);
    }
}

#[test]
fn distance_ceiling_blocks_all_candidates() {
    let m = tetrahedron();
    let out = m.simplify_with(fx(0.5), 1, i64::MAX).unwrap();
    assert_eq!(out.tri.len(), 4);
}

#[test]
fn cost_ceiling_blocks_all_candidates() {
    let m = quad();
    // Coplanar candidates cost exactly zero, so a zero ceiling rejects all.
    let out = m.simplify_with(fx(0.9), i64::MAX, 0).unwrap();
    assert_eq!(out.tri.len(), 2);
}

#[test]
fn output_positions_are_all_referenced() {
    let m = tetrahedron();
    let out = m.simplify(fx(0.5)).unwrap();
    for p in 0..out.pos.len() {
        assert!(out.tri.iter().any(|&(a, b, c)| a == p || b == p || c == p));
    }
}

#[test]
fn budget_is_respected() {
    let m = tetrahedron();
    for r in [0.0, 0.25, 0.5, 0.75] {
        let out = m.simplify(fx(r)).unwrap();
        let budget = (4.0 * r).round() as usize;
        let removed = 4 - out.tri.len();
        assert!(out.tri.len() <= 4);
        assert!(removed <= budget);
    }
}
