//! Triangles, meshes, placed instances and clip planes.
use crate::color::{blue, cyan, green, purple, red, yellow, Color24};
use crate::fixed::{fx, Fixed, SCALE};
use crate::mat4::{identity_spec, mul_mm_spec, Mat4x4};
use crate::utils::{
    make_scaling_mat, make_translation_mat, mul_mm, scaling_spec, translation_spec,
};
use crate::vec3::{Vec3, Vec4};
use vstd::prelude::*;

verus! {

/// A position on the canvas.
pub type Point = Vec3;

/// A vertex in model, world or camera space.
pub type Vertex3 = Vec3;

/// A vertex in homogeneous coordinates.
pub type Vertex4 = Vec4;

/// A vertex of a mesh.
pub type Vertex = Vec3;

/// Three indices into a mesh's vertex list and one flat colour.
#[derive(Clone, Copy, Debug)]
pub struct Triangle {
    pub ind: [usize; 3],
    pub color: Color24,
}

impl Triangle {
    /// The triangle on the vertices `v0`, `v1` and `v2`, in that winding.
    pub fn new(v0: usize, v1: usize, v2: usize, color: Color24) -> (t: Self)
        ensures
            t == (Triangle { ind: [v0, v1, v2], color }),
    {
        Self { ind: [v0, v1, v2], color }
    }

    /// Every index of the triangle names one of `n` vertices.
    pub open spec fn indices_below(self, n: int) -> bool {
        self.ind[0] < n && self.ind[1] < n && self.ind[2] < n
    }
}

/// The twelve triangles and eight corners of a cube.
#[derive(Clone, Copy, Debug)]
pub struct Cube {
    pub triangles: [Triangle; 12],
    pub verticies: [Vec3; 8],
}

/// The triangles of the sample cube, two to a face: the faces are red,
/// yellow, cyan, green, purple and blue.
pub open spec fn debug_cube_triangles() -> Seq<Triangle> {
    let red = Color24 { r: 229, g: 40, b: 56 };
    let yellow = Color24 { r: 252, g: 249, b: 0 };
    let cyan = Color24 { r: 0, g: 255, b: 255 };
    let green = Color24 { r: 0, g: 226, b: 48 };
    let purple = Color24 { r: 198, g: 122, b: 255 };
    let blue = Color24 { r: 0, g: 119, b: 242 };
    seq![
        Triangle { ind: [0, 1, 2], color: red },
        Triangle { ind: [0, 2, 3], color: red },
        Triangle { ind: [1, 5, 6], color: yellow },
        Triangle { ind: [1, 6, 2], color: yellow },
        Triangle { ind: [2, 6, 7], color: cyan },
        Triangle { ind: [2, 7, 3], color: cyan },
        Triangle { ind: [4, 0, 3], color: green },
        Triangle { ind: [4, 1, 0], color: purple },
        Triangle { ind: [4, 3, 7], color: green },
        Triangle { ind: [4, 5, 1], color: purple },
        Triangle { ind: [5, 4, 7], color: blue },
        Triangle { ind: [5, 7, 6], color: blue },
    ]
}

/// The point with the given whole coordinates.
pub open spec fn whole_point(x: int, y: int, z: int) -> Vec3 {
    Vec3 { x: fx(x * SCALE), y: fx(y * SCALE), z: fx(z * SCALE) }
}

/// The corners of the sample cube.
pub open spec fn debug_cube_vertices() -> Seq<Vec3> {
    seq![
        whole_point(1, 1, 1),
        whole_point(-1, 1, 1),
        whole_point(-1, -1, 1),
        whole_point(1, -1, 1),
        whole_point(1, 1, -1),
        whole_point(-1, 1, -1),
        whole_point(-1, -1, -1),
        whole_point(1, -1, -1),
    ]
}

/// The point with the given whole coordinates.
fn corner(x: i32, y: i32, z: i32) -> (v: Vec3)
    ensures
        v == whole_point(x as int, y as int, z as int),
{
    Vec3::new(Fixed::from_int(x), Fixed::from_int(y), Fixed::from_int(z))
}

impl Cube {
    /// The sample cube: side two, centred at the origin, each face in a colour
    /// of its own.
    pub fn debug_cube() -> (cube: Self)
        ensures
            cube.triangles@ == debug_cube_triangles(),
            cube.verticies@ == debug_cube_vertices(),
    {
        let cube = Self {
            triangles: [
                Triangle::new(0, 1, 2, red()),
                Triangle::new(0, 2, 3, red()),
                Triangle::new(1, 5, 6, yellow()),
                Triangle::new(1, 6, 2, yellow()),
                Triangle::new(2, 6, 7, cyan()),
                Triangle::new(2, 7, 3, cyan()),
                Triangle::new(4, 0, 3, green()),
                Triangle::new(4, 1, 0, purple()),
                Triangle::new(4, 3, 7, green()),
                Triangle::new(4, 5, 1, purple()),
                Triangle::new(5, 4, 7, blue()),
                Triangle::new(5, 7, 6, blue()),
            ],
            verticies: [
                corner(1, 1, 1),
                corner(-1, 1, 1),
                corner(-1, -1, 1),
                corner(1, -1, 1),
                corner(1, 1, -1),
                corner(-1, 1, -1),
                corner(-1, -1, -1),
                corner(1, -1, -1),
            ],
        };
        assert(cube.triangles@ =~= debug_cube_triangles());
        assert(cube.verticies@ =~= debug_cube_vertices());
        cube
    }
}

/// A mesh with the sphere that bounds it.
#[derive(Debug)]
pub struct Model {
    pub triangles: Vec<Triangle>,
    pub verticies: Vec<Vec3>,
    pub bounds_center: Vec4,
    pub bounds_radius: Fixed,
}

/// What a mesh holds.
pub struct ModelView {
    pub triangles: Seq<Triangle>,
    pub verticies: Seq<Vec3>,
    pub bounds_center: Vec4,
    pub bounds_radius: Fixed,
}

impl View for Model {
    type V = ModelView;

    open spec fn view(&self) -> ModelView {
        ModelView {
            triangles: self.triangles@,
            verticies: self.verticies@,
            bounds_center: self.bounds_center,
            bounds_radius: self.bounds_radius,
        }
    }
}

impl ModelView {
    /// Every triangle of the mesh names vertices that the mesh has.
    pub open spec fn wf(self) -> bool {
        forall|i: int|
            0 <= i < self.triangles.len() ==> (#[trigger] self.triangles[i]).indices_below(
                self.verticies.len() as int,
            )
    }
}

impl Model {
    /// Every triangle of the mesh names vertices that the mesh has.
    pub open spec fn wf(&self) -> bool {
        self@.wf()
    }

    /// Checks that every triangle of the mesh names vertices that the mesh
    /// has.
    pub fn is_well_formed(&self) -> (ok: bool)
        ensures
            ok == self.wf(),
    {
        let count = self.verticies.len();
        let mut i: usize = 0;
        while i < self.triangles.len()
            invariant
                i <= self.triangles@.len(),
                count == self.verticies@.len(),
                forall|k: int|
                    0 <= k < i ==> (#[trigger] self@.triangles[k]).indices_below(count as int),
            decreases self.triangles@.len() - i,
        {
            let t = &self.triangles[i];
            if t.ind[0] >= count || t.ind[1] >= count || t.ind[2] >= count {
                assert(!self@.triangles[i as int].indices_below(count as int));
                return false;
            }
            i = i + 1;
        }
        true
    }

    /// The mesh with the given triangles, vertices and bounding sphere.
    pub fn new(tris: Vec<Triangle>, verts: Vec<Vec3>, center: Vec4, radius: Fixed) -> (m: Self)
        ensures
            m.triangles == tris,
            m.verticies == verts,
            m.bounds_center == center,
            m.bounds_radius == radius,
    {
        Self { triangles: tris, verticies: verts, bounds_center: center, bounds_radius: radius }
    }

    /// The mesh of a cube, with the given bounding sphere.
    pub fn from(data: (&Cube, Vec4, Fixed)) -> (m: Self)
        ensures
            m.triangles@ == data.0.triangles@,
            m.verticies@ == data.0.verticies@,
            m.bounds_center == data.1,
            m.bounds_radius == data.2,
    {
        let (cube, center, radius) = data;
        let mut triangles: Vec<Triangle> = Vec::new();
        let mut i: usize = 0;
        while i < 12
            invariant
                i <= 12,
                triangles@ == cube.triangles@.take(i as int),
            decreases 12 - i,
        {
            triangles.push(cube.triangles[i]);
            assert(cube.triangles@.take(i as int).push(cube.triangles@[i as int])
                =~= cube.triangles@.take(i + 1));
            i = i + 1;
        }
        let mut verticies: Vec<Vec3> = Vec::new();
        let mut j: usize = 0;
        while j < 8
            invariant
                j <= 8,
                verticies@ == cube.verticies@.take(j as int),
            decreases 8 - j,
        {
            verticies.push(cube.verticies[j]);
            assert(cube.verticies@.take(j as int).push(cube.verticies@[j as int])
                =~= cube.verticies@.take(j + 1));
            j = j + 1;
        }
        assert(cube.triangles@.take(12) =~= cube.triangles@);
        assert(cube.verticies@.take(8) =~= cube.verticies@);
        Model { triangles, verticies, bounds_center: center, bounds_radius: radius }
    }
}

/// The transform of an instance: scale first, then turn, then move.
pub open spec fn instance_transform_spec(position: Vec3, orientation: Mat4x4, scale: Fixed) -> Mat4x4 {
    mul_mm_spec(translation_spec(position), mul_mm_spec(orientation, scaling_spec(scale)))
}

/// One placed occurrence of a mesh.
#[derive(Debug)]
pub struct Instance<'a> {
    pub model: &'a Model,
    pub position: Vec3,
    pub orientation: Mat4x4,
    pub scale: Fixed,
    pub transform: Mat4x4,
}

/// What a placed instance holds.
pub struct InstanceView {
    pub model: ModelView,
    pub position: Vec3,
    pub orientation: Mat4x4,
    pub scale: Fixed,
    pub transform: Mat4x4,
}

impl<'a> View for Instance<'a> {
    type V = InstanceView;

    open spec fn view(&self) -> InstanceView {
        InstanceView {
            model: self.model@,
            position: self.position,
            orientation: self.orientation,
            scale: self.scale,
            transform: self.transform,
        }
    }
}

/// The instance of `model` at `position`, turned by `orientation` and scaled
/// by `scale`.
pub open spec fn instance_spec(
    model: ModelView,
    position: Vec3,
    orientation: Mat4x4,
    scale: Fixed,
) -> InstanceView {
    InstanceView {
        model,
        position,
        orientation,
        scale,
        transform: instance_transform_spec(position, orientation, scale),
    }
}

impl<'a> Instance<'a> {
    /// Whether the cached transform is the one that position, orientation and
    /// scale give.
    pub open spec fn wf(&self) -> bool {
        self.transform == instance_transform_spec(self.position, self.orientation, self.scale)
    }

    /// Places `model` at `position`. Without an orientation the instance is
    /// not turned; without a scale it keeps its size.
    pub fn new(
        model: &'a Model,
        position: Vec3,
        orientation: Option<Mat4x4>,
        scale: Option<Fixed>,
    ) -> (inst: Self)
        ensures
            inst.model == model,
            inst@ == instance_spec(
                model@,
                position,
                match orientation {
                    Some(o) => o,
                    None => identity_spec(),
                },
                match scale {
                    Some(s) => s,
                    None => fx(SCALE as int),
                },
            ),
            inst.wf(),
    {
        let s = match scale {
            Some(scale) => scale,
            None => Fixed::one(),
        };
        let o = match orientation {
            Some(orientation) => orientation,
            None => Mat4x4::identity(),
        };
        let t_mat = make_translation_mat(position);
        let s_mat = mul_mm(o, make_scaling_mat(s));
        let transform = mul_mm(t_mat, s_mat);
        Self { model, position, transform, orientation: o, scale: s }
    }
}

/// The kinds of mesh that the library can build itself.
#[derive(Clone, Copy, Debug)]
pub enum ModelType {
    Cube,
}

/// A kind of mesh with the place where it stands.
#[derive(Clone, Copy, Debug)]
pub struct ModelInstance {
    pub model: ModelType,
    pub position: Vec3,
}

/// A half-space: the points `p` with `normal . p + dist > 0` are inside.
#[derive(Clone, Copy, Debug)]
pub struct Plane {
    pub normal: Vec3,
    pub dist: Fixed,
}

impl Plane {
    /// The half-space with the given normal and offset.
    pub fn new(normal: Vec3, dist: Fixed) -> (p: Self)
        ensures
            p == (Plane { normal, dist }),
    {
        Self { normal, dist }
    }
}

} // verus!
