use softraster::camera::{clipping_planes, Camera};
use softraster::clipping::{clip_triangle, signed_distance, transform_and_clip};
use softraster::color::Color24;
use softraster::data_types::{Cube, Instance, Model, Plane, Triangle};
use softraster::fixed::{Fixed, SCALE};
use softraster::mat4::Mat4x4;
use softraster::math::sqrt_f;
use softraster::render::{back_facing, camera_view_matrix, combined_transform, compute_triangle_normal};
use softraster::utils::{
    make_rotation_mat, make_scaling_mat, make_translation_mat, mul_mm, mul_mv,
};
use softraster::vec3::{cross, dot, neg, Vec3, Vec4};

fn n(x: i32) -> Fixed {
    Fixed::from_int(x)
}

fn v3(x: i32, y: i32, z: i32) -> Vec3 {
    Vec3::new(n(x), n(y), n(z))
}

fn v4(x: i32, y: i32, z: i32, w: i32) -> Vec4 {
    Vec4::new(n(x), n(y), n(z), n(w))
}

fn raw3(v: Vec3) -> (i64, i64, i64) {
    (v.x.raw, v.y.raw, v.z.raw)
}

fn raw4(v: Vec4) -> (i64, i64, i64, i64) {
    (v.x.raw, v.y.raw, v.z.raw, v.w.raw)
}

fn whole3(x: i64, y: i64, z: i64) -> (i64, i64, i64) {
    (x * SCALE, y * SCALE, z * SCALE)
}

#[test]
fn vector_arithmetic_in_place() {
    let mut a = v3(1, 2, 3);
    a.add(&v3(10, 20, 30));
    assert_eq!(raw3(a), whole3(11, 22, 33));
    a.sub(&v3(1, 2, 3));
    assert_eq!(raw3(a), whole3(10, 20, 30));
    a.mul(&v3(2, 3, 4));
    assert_eq!(raw3(a), whole3(20, 60, 120));
    a.scale(Fixed::from_ratio(1, 2));
    assert_eq!(raw3(a), whole3(10, 30, 60));
    assert_eq!(v3(1, 2, 3).length_squared().raw, 14 * SCALE);
}

#[test]
fn vector_arithmetic_by_value() {
    assert_eq!(raw3(v3(1, 2, 3).plus(v3(4, 5, 6))), whole3(5, 7, 9));
    assert_eq!(raw3(v3(1, 2, 3).minus(v3(4, 6, 8))), whole3(-3, -4, -5));
    assert_eq!(raw3(v3(1, 2, 3).times(n(-2))), whole3(-2, -4, -6));
    assert_eq!(raw3(neg(&v3(1, -2, 3))), whole3(-1, 2, -3));
}

#[test]
fn dot_and_cross_products() {
    assert_eq!(dot(&v3(1, 2, 3), &v3(4, -5, 6)).raw, 12 * SCALE);
    assert_eq!(raw3(cross(&v3(1, 0, 0), &v3(0, 1, 0))), whole3(0, 0, 1));
    assert_eq!(raw3(cross(&v3(0, 1, 0), &v3(1, 0, 0))), whole3(0, 0, -1));
    assert_eq!(raw3(cross(&v3(1, 2, 3), &v3(4, 5, 6))), whole3(-3, 6, -3));
    assert_eq!(v4(1, 2, 3, 4).dot(v4(5, 6, 7, 8)).raw, 70 * SCALE);
}

#[test]
fn dot_product_is_clamped_once_at_the_end() {
    let big = Fixed::from_raw(i64::MAX);
    let a = Vec3::new(big, big, n(0));
    let b = Vec3::new(n(2), n(-2), n(0));
    // the two products cancel before anything is clamped
    assert_eq!(dot(&a, &b).raw, 0);
    let c = Vec3::new(n(2), n(2), n(0));
    assert_eq!(dot(&a, &c).raw, i64::MAX);
}

#[test]
fn homogeneous_points() {
    let p = Vec4::from_point(v3(1, 2, 3));
    assert_eq!(raw4(p), (SCALE, 2 * SCALE, 3 * SCALE, SCALE));
    assert_eq!(raw3(p.truncate()), whole3(1, 2, 3));
}

#[test]
fn identity_leaves_vectors_alone() {
    let v = v4(3, -4, 5, 1);
    assert_eq!(raw4(Mat4x4::identity().mul_vec4(v)), raw4(v));
    let t = make_translation_mat(v3(1, 2, 3));
    let m = Mat4x4::identity().mul_mat4(&t);
    assert_eq!(raw4(m.w_axis), raw4(t.w_axis));
    assert_eq!(raw4(m.x_axis), raw4(t.x_axis));
}

#[test]
fn translation_moves_points_not_directions() {
    let t = make_translation_mat(v3(1, 2, 3));
    assert_eq!(raw4(mul_mv(t, v4(10, 20, 30, 1))), raw4(v4(11, 22, 33, 1)));
    assert_eq!(raw4(mul_mv(t, v4(10, 20, 30, 0))), raw4(v4(10, 20, 30, 0)));
}

#[test]
fn scaling_leaves_the_fourth_component() {
    let s = make_scaling_mat(Fixed::from_ratio(3, 4));
    assert_eq!(raw4(mul_mv(s, v4(4, 8, -12, 1))), raw4(v4(3, 6, -9, 1)));
}

#[test]
fn rotation_by_a_quarter_turn() {
    // cosine 0, sine 1
    let r = make_rotation_mat(n(0), n(1));
    assert_eq!(raw4(mul_mv(r, v4(1, 0, 0, 1))), raw4(v4(0, 0, 1, 1)));
    assert_eq!(raw4(mul_mv(r, v4(0, 0, 1, 1))), raw4(v4(-1, 0, 0, 1)));
    assert_eq!(raw4(mul_mv(r, v4(0, 5, 0, 1))), raw4(v4(0, 5, 0, 1)));
}

#[test]
fn transpose_swaps_rows_and_columns() {
    let m = Mat4x4::from_cols(v4(1, 2, 3, 4), v4(5, 6, 7, 8), v4(9, 10, 11, 12), v4(13, 14, 15, 16));
    let t = m.transpose();
    assert_eq!(raw4(t.x_axis), raw4(v4(1, 5, 9, 13)));
    assert_eq!(raw4(t.y_axis), raw4(v4(2, 6, 10, 14)));
    assert_eq!(raw4(t.z_axis), raw4(v4(3, 7, 11, 15)));
    assert_eq!(raw4(t.w_axis), raw4(v4(4, 8, 12, 16)));
    assert_eq!(raw4(t.transpose().y_axis), raw4(m.y_axis));
}

#[test]
fn matrix_product_applies_the_right_factor_first() {
    let t = make_translation_mat(v3(1, 0, 0));
    let s = make_scaling_mat(n(2));
    // scale, then move
    assert_eq!(raw4(mul_mv(mul_mm(t, s), v4(1, 1, 1, 1))), raw4(v4(3, 2, 2, 1)));
    // move, then scale
    assert_eq!(raw4(mul_mv(mul_mm(s, t), v4(1, 1, 1, 1))), raw4(v4(4, 2, 2, 1)));
}

#[test]
fn instance_transform_scales_turns_and_moves() {
    let cube = Cube::debug_cube();
    let model = Model::from((&cube, v4(0, 0, 0, 1), sqrt_f(n(3))));
    let inst = Instance::new(&model, v3(10, 0, 0), Some(make_rotation_mat(n(0), n(1))), Some(n(2)));
    assert_eq!(inst.scale.raw, 2 * SCALE);
    assert_eq!(raw3(inst.position), whole3(10, 0, 0));
    // (1, 0, 0) is doubled, turned onto the z axis, and moved
    assert_eq!(raw4(mul_mv(inst.transform, v4(1, 0, 0, 1))), raw4(v4(10, 0, 2, 1)));
    let plain = Instance::new(&model, v3(1, 2, 3), None, None);
    assert_eq!(plain.scale.raw, SCALE);
    assert_eq!(raw4(plain.orientation.y_axis), raw4(v4(0, 1, 0, 0)));
    assert_eq!(raw4(mul_mv(plain.transform, v4(1, 1, 1, 1))), raw4(v4(2, 3, 4, 1)));
}

#[test]
fn camera_view_matrix_undoes_the_camera() {
    let cam = Camera::new(v3(1, 2, 3), make_rotation_mat(n(0), n(1)));
    let view = camera_view_matrix(&cam);
    // the camera's own position lands on the origin
    assert_eq!(raw4(mul_mv(view, v4(1, 2, 3, 1))), raw4(v4(0, 0, 0, 1)));
    // the turn is undone: what lies along the world's z axis lies along the camera's x axis
    assert_eq!(raw4(mul_mv(view, v4(1, 2, 8, 1))), raw4(v4(5, 0, 0, 1)));
    assert_eq!(raw4(mul_mv(view, v4(-3, 2, 3, 1))), raw4(v4(0, 0, 4, 1)));
}

#[test]
fn combined_transform_agrees_with_two_steps() {
    let cube = Cube::debug_cube();
    let model = Model::from((&cube, v4(0, 0, 0, 1), sqrt_f(n(3))));
    let turn = make_rotation_mat(Fixed::from_raw(3719550786), Fixed::from_raw(-2147483648));
    let cam = Camera::new(v3(-3, 1, 2), turn);
    let inst = Instance::new(
        &model,
        Vec3::new(Fixed::from_ratio(5, 4), Fixed::from_ratio(5, 2), Fixed::from_ratio(15, 2)),
        Some(make_rotation_mat(Fixed::from_raw(-4148619834), Fixed::from_raw(-1111619334))),
        Some(Fixed::from_ratio(3, 4)),
    );
    let combined = combined_transform(&cam, &inst);
    let view = camera_view_matrix(&cam);
    for v in cube.verticies.iter() {
        let p = Vec4::from_point(*v);
        let at_once = mul_mv(combined, p);
        let in_steps = mul_mv(view, mul_mv(inst.transform, p));
        // eight units, and four for each whole unit of magnitude in the row and the vector
        let bound = 8 + 4 * (4 + 16);
        assert!((at_once.x.raw - in_steps.x.raw).abs() <= bound);
        assert!((at_once.y.raw - in_steps.y.raw).abs() <= bound);
        assert!((at_once.z.raw - in_steps.z.raw).abs() <= bound);
        assert_eq!(at_once.w.raw, SCALE);
        assert_eq!(in_steps.w.raw, SCALE);
    }
}

#[test]
fn camera_has_five_planes() {
    let cam = Camera::new(v3(0, 0, 0), Mat4x4::identity());
    let s2 = 6074000999;
    let p = cam.clipping_planes;
    assert_eq!((raw3(p[0].normal), p[0].dist.raw), ((0, 0, SCALE), -SCALE));
    assert_eq!((raw3(p[1].normal), p[1].dist.raw), ((s2, 0, s2), 0));
    assert_eq!((raw3(p[2].normal), p[2].dist.raw), ((-s2, 0, s2), 0));
    assert_eq!((raw3(p[3].normal), p[3].dist.raw), ((0, -s2, s2), 0));
    assert_eq!((raw3(p[4].normal), p[4].dist.raw), ((0, s2, s2), 0));
    let d = Camera::default();
    assert_eq!(raw3(d.pos), (0, 0, 0));
    assert_eq!(raw4(d.orientation.x_axis), raw4(v4(1, 0, 0, 0)));
    assert_eq!(raw3(d.clipping_planes[1].normal), (s2, 0, s2));
    let q = clipping_planes(n(1));
    assert_eq!(raw3(q[2].normal), whole3(-1, 0, 1));
}

#[test]
fn signed_distance_of_a_point() {
    let plane = Plane::new(v3(0, 0, 1), n(-1));
    assert_eq!(signed_distance(&plane, &v3(5, 5, 3)).raw, 2 * SCALE);
    assert_eq!(signed_distance(&plane, &v3(5, 5, 1)).raw, 0);
    assert_eq!(signed_distance(&plane, &v3(0, 0, -10)).raw, -11 * SCALE);
}

#[test]
fn clip_triangle_keeps_only_triangles_wholly_inside() {
    let plane = Plane::new(v3(0, 0, 1), n(-1));
    let verts = vec![v3(0, 0, 2), v3(1, 0, 3), v3(0, 1, 4), v3(0, 0, 1), v3(0, 0, 0)];
    let colour = Color24::new(1, 2, 3);
    let mut kept: Vec<Triangle> = Vec::new();
    clip_triangle(&Triangle::new(0, 1, 2, colour), &plane, &mut kept, &verts);
    assert_eq!(kept.len(), 1);
    assert_eq!(kept[0].ind, [0, 1, 2]);
    // a vertex on the plane is not inside
    clip_triangle(&Triangle::new(0, 1, 3, colour), &plane, &mut kept, &verts);
    assert_eq!(kept.len(), 1);
    // each of the three vertices is tested, not only the first
    clip_triangle(&Triangle::new(0, 4, 1, colour), &plane, &mut kept, &verts);
    clip_triangle(&Triangle::new(0, 1, 4, colour), &plane, &mut kept, &verts);
    clip_triangle(&Triangle::new(4, 0, 1, colour), &plane, &mut kept, &verts);
    assert_eq!(kept.len(), 1);
}

fn cube_model() -> Model {
    let cube = Cube::debug_cube();
    Model::from((&cube, v4(0, 0, 0, 1), sqrt_f(n(3))))
}

#[test]
fn sphere_behind_the_near_plane_is_rejected() {
    let model = cube_model();
    let planes = [Plane::new(v3(0, 0, 1), n(-1))];
    let behind = make_translation_mat(v3(0, 0, -10));
    assert!(transform_and_clip(&planes, &model, behind).is_none());
    let cam = Camera::default();
    assert!(transform_and_clip(&cam.clipping_planes, &model, behind).is_none());
}

#[test]
fn rejection_compares_the_distance_with_the_squared_radius() {
    // radius 2: a centre 3.5 behind the plane is behind by more than the
    // radius, but not by the squared radius
    let cube = Cube::debug_cube();
    let model = Model::from((&cube, v4(0, 0, 0, 1), n(2)));
    let planes = [Plane::new(v3(0, 0, 1), n(0))];
    let near = Mat4x4::from_cols(v4(1, 0, 0, 0), v4(0, 1, 0, 0), v4(0, 0, 1, 0), Vec4::new(
        n(0),
        n(0),
        Fixed::from_ratio(-7, 2),
        n(1),
    ));
    let clipped = transform_and_clip(&planes, &model, near).expect("not rejected as a whole");
    assert_eq!(clipped.triangles.len(), 0);
    assert_eq!(clipped.verticies.len(), 8);
    let far = make_translation_mat(v3(0, 0, -5));
    assert!(transform_and_clip(&planes, &model, far).is_none());
    // at exactly minus the squared radius the model is not rejected
    let edge = make_translation_mat(v3(0, 0, -4));
    assert!(transform_and_clip(&planes, &model, edge).is_some());
}

#[test]
fn clipping_keeps_vertices_and_filters_triangles_in_order() {
    let model = cube_model();
    // a plane through the cube: only the face at z = 1 lies wholly inside z > 0
    let planes = [Plane::new(v3(0, 0, 1), n(0))];
    let clipped = transform_and_clip(&planes, &model, Mat4x4::identity()).expect("visible");
    assert_eq!(clipped.verticies.len(), 8);
    for (a, b) in clipped.verticies.iter().zip(model.verticies.iter()) {
        assert_eq!(raw3(*a), raw3(*b));
    }
    let kept: Vec<[usize; 3]> = clipped.triangles.iter().map(|t| t.ind).collect();
    assert_eq!(kept, vec![[0, 1, 2], [0, 2, 3]]);
    assert_eq!(raw4(clipped.bounds_center), raw4(model.bounds_center));
    assert_eq!(clipped.bounds_radius.raw, model.bounds_radius.raw);
}

#[test]
fn clipping_applies_every_plane() {
    let model = cube_model();
    let planes = [Plane::new(v3(0, 0, 1), n(2)), Plane::new(v3(1, 0, 0), n(0))];
    // all inside the first plane; only the face at x = 1 inside the second
    let clipped = transform_and_clip(&planes, &model, Mat4x4::identity()).expect("visible");
    let kept: Vec<[usize; 3]> = clipped.triangles.iter().map(|t| t.ind).collect();
    assert_eq!(kept, vec![[4, 0, 3], [4, 3, 7]]);
    let none: [Plane; 0] = [];
    let all = transform_and_clip(&none, &model, Mat4x4::identity()).expect("visible");
    assert_eq!(all.triangles.len(), 12);
}

#[test]
fn clipping_transforms_the_vertices() {
    let model = cube_model();
    let none: [Plane; 0] = [];
    let moved = transform_and_clip(&none, &model, make_translation_mat(v3(0, 0, 5))).expect("visible");
    assert_eq!(raw3(moved.verticies[0]), whole3(1, 1, 6));
    assert_eq!(raw3(moved.verticies[6]), whole3(-1, -1, 4));
}

#[test]
fn triangle_normal_follows_the_winding() {
    assert_eq!(
        raw3(compute_triangle_normal(v3(1, 1, 1), v3(-1, 1, 1), v3(-1, -1, 1))),
        whole3(0, 0, 4)
    );
    assert_eq!(
        raw3(compute_triangle_normal(v3(1, 1, 1), v3(-1, -1, 1), v3(-1, 1, 1))),
        whole3(0, 0, -4)
    );
}

fn drawn_triangles(offset: Vec3) -> Vec<usize> {
    let cube = Cube::debug_cube();
    let mut drawn = Vec::new();
    for (i, t) in cube.triangles.iter().enumerate() {
        let a = cube.verticies[t.ind[0]].plus(offset);
        let b = cube.verticies[t.ind[1]].plus(offset);
        let c = cube.verticies[t.ind[2]].plus(offset);
        if !back_facing(a, b, c) {
            drawn.push(i);
        }
    }
    drawn
}

fn facing_triangles(offset: (i64, i64, i64)) -> Vec<usize> {
    // the triangles whose outward normal has a negative dot product with the
    // direction from the eye to their centroid, in whole numbers
    let cube = Cube::debug_cube();
    let corner = |i: usize| {
        let v = cube.verticies[i];
        (v.x.raw / SCALE + offset.0, v.y.raw / SCALE + offset.1, v.z.raw / SCALE + offset.2)
    };
    let mut facing = Vec::new();
    for (i, t) in cube.triangles.iter().enumerate() {
        let (a, b, c) = (corner(t.ind[0]), corner(t.ind[1]), corner(t.ind[2]));
        let e1 = (b.0 - a.0, b.1 - a.1, b.2 - a.2);
        let e2 = (c.0 - a.0, c.1 - a.1, c.2 - a.2);
        let normal =
            (e1.1 * e2.2 - e1.2 * e2.1, e1.2 * e2.0 - e1.0 * e2.2, e1.0 * e2.1 - e1.1 * e2.0);
        let centroid = (a.0 + b.0 + c.0, a.1 + b.1 + c.1, a.2 + b.2 + c.2);
        if normal.0 * centroid.0 + normal.1 * centroid.1 + normal.2 * centroid.2 < 0 {
            facing.push(i);
        }
    }
    facing
}

#[test]
fn cube_seen_head_on_shows_the_faces_that_face_the_eye() {
    // the eye at (0, 0, -5) looking along z: in camera space the cube stands at (0, 0, 5)
    let drawn = drawn_triangles(v3(0, 0, 5));
    assert_eq!(drawn, facing_triangles((0, 0, 5)));
    // head on, only the front face has its normal against the view
    assert_eq!(drawn, vec![10, 11]);
}

#[test]
fn cube_seen_from_a_corner_shows_half_its_triangles() {
    let drawn = drawn_triangles(v3(4, 3, 9));
    assert_eq!(drawn, facing_triangles((4, 3, 9)));
    assert_eq!(drawn.len(), 6);
}
