//! Rejecting what the camera cannot see.
use crate::data_types::{Model, Plane, Triangle};
use crate::fixed::{fx, prod, Fixed};
use crate::mat4::{mul_mv_spec, Mat4x4};
use crate::utils::mul_mv;
use crate::vec3::{dot, dot_spec, point_spec, truncate_spec, Vec3, Vec4};
use vstd::prelude::*;

verus! {

/// The signed distance of `p` from the plane: the dot product with the normal,
/// plus the plane's offset.
pub open spec fn signed_distance_spec(plane: Plane, p: Vec3) -> Fixed {
    fx(dot_spec(plane.normal, p)@ + plane.dist@)
}

/// Whether `p` lies strictly on the inner side of the plane.
pub open spec fn inside_spec(plane: Plane, p: Vec3) -> bool {
    signed_distance_spec(plane, p)@ > 0
}

/// Whether all three vertices of the triangle lie inside the plane.
pub open spec fn triangle_inside(t: Triangle, plane: Plane, verts: Seq<Vec3>) -> bool {
    &&& inside_spec(plane, verts[t.ind[0] as int])
    &&& inside_spec(plane, verts[t.ind[1] as int])
    &&& inside_spec(plane, verts[t.ind[2] as int])
}

/// Whether the triangle lies inside each of the first `n` planes.
pub open spec fn triangle_kept(t: Triangle, planes: Seq<Plane>, n: int, verts: Seq<Vec3>) -> bool {
    forall|i: int| 0 <= i < n ==> triangle_inside(t, #[trigger] planes[i], verts)
}

/// The bound against which a sphere's centre is tested: minus the square of
/// the radius.
pub open spec fn rejection_bound(radius: Fixed) -> Fixed {
    fx(-fx(prod(radius@, radius@))@)
}

/// Whether some plane has the centre of the sphere further outside than the
/// rejection bound.
pub open spec fn sphere_rejected(planes: Seq<Plane>, center: Vec3, radius: Fixed) -> bool {
    exists|i: int|
        0 <= i < planes.len() && signed_distance_spec(#[trigger] planes[i], center)@
            < rejection_bound(radius)@
}

/// A vertex of the model moved by the transform.
pub open spec fn transform_vertex_spec(transform: Mat4x4, v: Vec3) -> Vec3 {
    truncate_spec(mul_mv_spec(transform, point_spec(v)))
}

/// The signed distance of `p` from `plane`.
pub fn signed_distance(plane: &Plane, p: &Vec3) -> (d: Fixed)
    ensures
        d == signed_distance_spec(*plane, *p),
{
    dot(&plane.normal, p).add(plane.dist)
}

/// Keeps a triangle that lies wholly inside the plane: the triangle is pushed
/// onto `tris` if all its vertices are strictly inside, and dropped otherwise.
pub fn clip_triangle(triangle: &Triangle, plane: &Plane, tris: &mut Vec<Triangle>, verts: &Vec<Vec3>)
    requires
        triangle.indices_below(verts@.len() as int),
    ensures
        final(tris)@ == (if triangle_inside(*triangle, *plane, verts@) {
            old(tris)@.push(*triangle)
        } else {
            old(tris)@
        }),
{
    let v0 = verts[triangle.ind[0]];
    let v1 = verts[triangle.ind[1]];
    let v2 = verts[triangle.ind[2]];
    let in0 = signed_distance(plane, &v0).raw > 0;
    let in1 = signed_distance(plane, &v1).raw > 0;
    let in2 = signed_distance(plane, &v2).raw > 0;
    if in0 && in1 && in2 {
        tris.push(*triangle);
    }
}

/// The test that a triangle lies inside one plane.
pub open spec fn inside_pred(plane: Plane, verts: Seq<Vec3>) -> spec_fn(Triangle) -> bool {
    |t: Triangle| triangle_inside(t, plane, verts)
}

/// The test that a triangle lies inside each of the first `n` planes.
pub open spec fn kept_pred(planes: Seq<Plane>, n: int, verts: Seq<Vec3>) -> spec_fn(
    Triangle,
) -> bool {
    |t: Triangle| triangle_kept(t, planes, n, verts)
}

/// Filtering twice is filtering once by both tests.
proof fn lemma_filter_twice<A>(
    s: Seq<A>,
    a: spec_fn(A) -> bool,
    b: spec_fn(A) -> bool,
    c: spec_fn(A) -> bool,
)
    requires
        forall|x: A| #[trigger] c(x) == (a(x) && b(x)),
    ensures
        s.filter(a).filter(b) == s.filter(c),
    decreases s.len(),
{
    reveal(Seq::filter);
    if s.len() > 0 {
        lemma_filter_twice(s.drop_last(), a, b, c);
        let t = s.drop_last().filter(a);
        let l = s.last();
        if a(l) {
            assert(t.push(l).drop_last() =~= t);
            assert(t.push(l).last() == l);
        }
    }
}

/// A test that every triangle passes keeps them all.
proof fn lemma_filter_all(s: Seq<Triangle>, a: spec_fn(Triangle) -> bool)
    requires
        forall|x: Triangle| #[trigger] a(x),
    ensures
        s.filter(a) == s,
    decreases s.len(),
{
    reveal(Seq::filter);
    if s.len() > 0 {
        lemma_filter_all(s.drop_last(), a);
        assert(s.drop_last().push(s.last()) =~= s);
    }
}

/// The camera-space vertices of a model under a transform.
pub open spec fn transformed_vertices(transform: Mat4x4, verts: Seq<Vec3>) -> Seq<Vec3> {
    Seq::new(verts.len(), |i: int| transform_vertex_spec(transform, verts[i]))
}

/// Moves a model into camera space and drops what the planes cut off.
///
/// The whole model is rejected, and nothing returned, if for some plane the
/// centre of its bounding sphere is further outside than the rejection bound.
/// Otherwise every vertex is transformed, and a triangle is kept if and only
/// if it lies wholly inside every plane; the kept triangles stay in their
/// order, and the bounding sphere is handed on as it was.
pub fn transform_and_clip(planes: &[Plane], model: &Model, transform: Mat4x4) -> (r: Option<Model>)
    requires
        model.wf(),
    ensures
        r is None <==> sphere_rejected(
            planes@,
            truncate_spec(mul_mv_spec(transform, model.bounds_center)),
            model.bounds_radius,
        ),
        r matches Some(m) ==> {
            &&& m.verticies@ == transformed_vertices(transform, model.verticies@)
            &&& m.triangles@ == model.triangles@.filter(
                kept_pred(planes@, planes@.len() as int, m.verticies@),
            )
            &&& m.bounds_center == model.bounds_center
            &&& m.bounds_radius == model.bounds_radius
            &&& m.wf()
        },
{
    let center = mul_mv(transform, model.bounds_center).truncate();
    let bound = model.bounds_radius.mul(model.bounds_radius).neg();
    let mut i: usize = 0;
    while i < planes.len()
        invariant
            i <= planes@.len(),
            center == truncate_spec(mul_mv_spec(transform, model.bounds_center)),
            bound == rejection_bound(model.bounds_radius),
            forall|k: int|
                0 <= k < i ==> !(signed_distance_spec(#[trigger] planes@[k], center)@ < bound@),
        decreases planes@.len() - i,
    {
        let dist = signed_distance(&planes[i], &center);
        if dist.raw < bound.raw {
            return None;
        }
        i = i + 1;
    }
    let mut verticies: Vec<Vec3> = Vec::new();
    let mut j: usize = 0;
    while j < model.verticies.len()
        invariant
            j <= model.verticies@.len(),
            verticies@.len() == j,
            forall|k: int|
                0 <= k < j ==> verticies@[k] == transform_vertex_spec(
                    transform,
                    model.verticies@[k],
                ),
        decreases model.verticies@.len() - j,
    {
        let v = model.verticies[j];
        verticies.push(mul_mv(transform, Vec4::from_point(v)).truncate());
        j = j + 1;
    }
    assert(verticies@ =~= transformed_vertices(transform, model.verticies@));
    let mut triangles: Vec<Triangle> = Vec::new();
    let mut c: usize = 0;
    while c < model.triangles.len()
        invariant
            c <= model.triangles@.len(),
            triangles@ == model.triangles@.take(c as int),
        decreases model.triangles@.len() - c,
    {
        triangles.push(model.triangles[c]);
        assert(model.triangles@.take(c as int).push(model.triangles@[c as int])
            =~= model.triangles@.take(c + 1));
        c = c + 1;
    }
    assert(model.triangles@.take(model.triangles@.len() as int) =~= model.triangles@);
    proof {
        lemma_filter_all(model.triangles@, kept_pred(planes@, 0, verticies@));
    }
    let mut p: usize = 0;
    while p < planes.len()
        invariant
            p <= planes@.len(),
            model.wf(),
            verticies@.len() == model.verticies@.len(),
            triangles@ == model.triangles@.filter(kept_pred(planes@, p as int, verticies@)),
        decreases planes@.len() - p,
    {
        let mut new_triangles: Vec<Triangle> = Vec::new();
        let mut t: usize = 0;
        proof {
            assert forall|k: int| 0 <= k < triangles@.len() implies model.triangles@.contains(
                #[trigger] triangles@[k],
            ) by {
                let elem = triangles@[k];
                assert(triangles@.contains(elem));
                model.triangles@.lemma_filter_contains_rev(
                    kept_pred(planes@, p as int, verticies@),
                    elem,
                );
            }
        }
        assert(triangles@.take(0).filter(inside_pred(planes@[p as int], verticies@))
            =~= Seq::<Triangle>::empty()) by {
            reveal(Seq::filter);
        }
        while t < triangles.len()
            invariant
                t <= triangles@.len(),
                p < planes@.len(),
                model.wf(),
                verticies@.len() == model.verticies@.len(),
                forall|k: int|
                    0 <= k < triangles@.len() ==> model.triangles@.contains(
                        #[trigger] triangles@[k],
                    ),
                new_triangles@ == triangles@.take(t as int).filter(
                    inside_pred(planes@[p as int], verticies@),
                ),
            decreases triangles@.len() - t,
        {
            let tri = triangles[t];
            proof {
                let idx = choose|k: int|
                    0 <= k < model.triangles@.len() && model.triangles@[k] == tri;
                assert(model@.triangles[idx].indices_below(model@.verticies.len() as int));
                reveal(Seq::filter);
                assert(triangles@.take(t + 1).drop_last() =~= triangles@.take(t as int));
                assert(triangles@.take(t + 1).last() == tri);
            }
            clip_triangle(&tri, &planes[p], &mut new_triangles, &verticies);
            t = t + 1;
        }
        proof {
            assert(triangles@.take(triangles@.len() as int) =~= triangles@);
            assert forall|x: Triangle| #[trigger]
                kept_pred(planes@, p + 1, verticies@)(x) == (kept_pred(
                    planes@,
                    p as int,
                    verticies@,
                )(x) && inside_pred(planes@[p as int], verticies@)(x)) by {
                if triangle_kept(x, planes@, p as int, verticies@) && triangle_inside(
                    x,
                    planes@[p as int],
                    verticies@,
                ) {
                    assert forall|i: int| 0 <= i < p + 1 implies triangle_inside(
                        x,
                        #[trigger] planes@[i],
                        verticies@,
                    ) by {}
                }
                if triangle_kept(x, planes@, p + 1, verticies@) {
                    assert(triangle_inside(x, planes@[p as int], verticies@));
                }
            }
            lemma_filter_twice(
                model.triangles@,
                kept_pred(planes@, p as int, verticies@),
                inside_pred(planes@[p as int], verticies@),
                kept_pred(planes@, p + 1, verticies@),
            );
        }
        triangles = new_triangles;
        p = p + 1;
    }
    proof {
        assert forall|k: int| 0 <= k < triangles@.len() implies (#[trigger] triangles@[k]).indices_below(
            verticies@.len() as int,
        ) by {
            let elem = triangles@[k];
            assert(triangles@.contains(elem));
            model.triangles@.lemma_filter_contains_rev(
                kept_pred(planes@, planes@.len() as int, verticies@),
                elem,
            );
            let idx = choose|i: int| 0 <= i < model.triangles@.len() && model.triangles@[i] == elem;
            assert(model@.triangles[idx].indices_below(model@.verticies.len() as int));
        }
    }
    Some(Model::new(triangles, verticies, model.bounds_center, model.bounds_radius))
}

} // verus!
