//! The kinds of component an entity can hold, and the row that holds them.

use vstd::prelude::*;
use crate::math::{is_decomposition_of, is_product_of, is_rotation_of, is_scaling_of};
use crate::math::{is_translation_of, mat4_decompose, mat4_mul, mat4_rotation, mat4_scaling};
use crate::math::{mat4_translation, Mat4, Quat, Scalar, Vec3};
use crate::math::{is_infinite_perspective_of, is_inverse_of, is_orthographic_of};
use crate::math::{is_perspective_of, mat4_infinite_perspective, mat4_inverse};
use crate::math::{mat4_orthographic, mat4_perspective};
use vstd::float::FloatBitsProperties;
use crate::math::{is_scalar_difference_of, scalar_sub, scalar_zero};

verus! {

/// Placement of an entity relative to its parent in the scene graph.
#[derive(Clone, Copy, Debug, PartialEq)]
pub struct Transform {
    pub translation: Vec3,
    pub rotation: Quat,
    pub scale: Vec3,
}

impl Transform {
    /// Puts the three parts together.
    pub fn new(translation: Vec3, rotation: Quat, scale: Vec3) -> (t: Transform)
        ensures
            t == (Transform { translation, rotation, scale }),
    {
        Transform { translation, rotation, scale }
    }

    /// Holds where `m` was computed as the affine matrix of the transform:
    /// scale first, then rotation, then translation, that is `(T * R) * S`.
    pub open spec fn is_matrix_of(t: Transform, m: Mat4) -> bool {
        exists|tm: Mat4, rm: Mat4, sm: Mat4, tr: Mat4|
            {
                &&& #[trigger] is_translation_of(t.translation, tm)
                &&& #[trigger] is_rotation_of(t.rotation, rm)
                &&& #[trigger] is_scaling_of(t.scale, sm)
                &&& #[trigger] is_product_of(tm, rm, tr)
                &&& is_product_of(tr, sm, m)
            }
    }

    /// Holds where the transform is what the matrix was taken apart into.
    pub open spec fn is_transform_of(m: Mat4, t: Transform) -> bool {
        is_decomposition_of(m, (t.translation, t.rotation, t.scale))
    }

    /// Computes the affine matrix `(T * R) * S` of this transform.
    pub fn matrix(&self) -> (m: Mat4)
        ensures
            Self::is_matrix_of(*self, m),
    {
        let t = mat4_translation(&self.translation);
        let r = mat4_rotation(&self.rotation);
        let s = mat4_scaling(&self.scale);
        let tr = mat4_mul(&t, &r);
        mat4_mul(&tr, &s)
    }

    /// Holds where `m` was computed as the view matrix of a camera placed by
    /// the transform: the inverse of `T * R`. The scale plays no part.
    pub open spec fn is_view_of(t: Transform, m: Mat4) -> bool {
        exists|tm: Mat4, rm: Mat4, tr: Mat4|
            {
                &&& #[trigger] is_translation_of(t.translation, tm)
                &&& #[trigger] is_rotation_of(t.rotation, rm)
                &&& #[trigger] is_product_of(tm, rm, tr)
                &&& is_inverse_of(tr, m)
            }
    }

    /// Computes the view matrix of a camera placed by this transform: the
    /// inverse of `T * R`.
    pub fn view_matrix(&self) -> (m: Mat4)
        ensures
            Self::is_view_of(*self, m),
    {
        let t = mat4_translation(&self.translation);
        let r = mat4_rotation(&self.rotation);
        let tr = mat4_mul(&t, &r);
        mat4_inverse(&tr)
    }

    /// Takes an affine matrix apart into translation, rotation and scale.
    pub fn from_matrix(m: &Mat4) -> (t: Transform)
        ensures
            Self::is_transform_of(*m, t),
    {
        let parts = mat4_decompose(m);
        Transform { translation: parts.0, rotation: parts.1, scale: parts.2 }
    }
}

/// Names the cached geometry that an entity is drawn with.
#[derive(Clone, Debug, PartialEq, Eq)]
pub struct MeshRender {
    pub name: String,
}

/// A perspective projection. Where `aspect_ratio` is absent the viewport's
/// ratio is used; where `z_far` is absent the projection is infinite.
#[derive(Clone, Copy, Debug, PartialEq)]
pub struct PerspectiveCamera {
    pub aspect_ratio: Option<Scalar>,
    pub y_fov_rad: Scalar,
    pub z_far: Option<Scalar>,
    pub z_near: Scalar,
}

/// An orthographic projection.
#[derive(Clone, Copy, Debug, PartialEq)]
pub struct OrthographicCamera {
    pub x_mag: Scalar,
    pub y_mag: Scalar,
    pub z_far: Scalar,
    pub z_near: Scalar,
}

/// How a camera projects the scene.
#[derive(Clone, Copy, Debug, PartialEq)]
pub enum Projection {
    Perspective(PerspectiveCamera),
    Orthographic(OrthographicCamera),
}

impl Projection {
    /// Holds where `m` was computed as the matrix of the projection for a
    /// viewport of the given aspect ratio. A perspective camera uses its own
    /// aspect ratio where it has one, and the viewport's otherwise; it is
    /// infinite where it has no far plane. An orthographic camera spans
    /// `0 - x_mag .. x_mag` by `0 - y_mag .. y_mag`.
    pub open spec fn is_matrix_of(p: Projection, viewport_aspect: Scalar, m: Mat4) -> bool {
        match p {
            Projection::Perspective(c) => {
                let aspect = match c.aspect_ratio {
                    Some(own) => own,
                    None => viewport_aspect,
                };
                match c.z_far {
                    Some(far) => is_perspective_of(aspect, c.y_fov_rad, c.z_near, far, m),
                    None => is_infinite_perspective_of(aspect, c.y_fov_rad, c.z_near, m),
                }
            },
            Projection::Orthographic(c) => exists|zero: Scalar, left: Scalar, bottom: Scalar|
                {
                    &&& zero.to_bits_spec() == 0
                    &&& #[trigger] is_scalar_difference_of(zero, c.x_mag, left)
                    &&& #[trigger] is_scalar_difference_of(zero, c.y_mag, bottom)
                    &&& is_orthographic_of(
                        (left, c.x_mag, bottom, c.y_mag, c.z_near, c.z_far),
                        m,
                    )
                },
        }
    }

    /// Computes the matrix of the projection for a viewport of the given
    /// aspect ratio.
    pub fn matrix(&self, viewport_aspect: Scalar) -> (m: Mat4)
        ensures
            Self::is_matrix_of(*self, viewport_aspect, m),
    {
        match self {
            Projection::Perspective(c) => {
                let aspect = match c.aspect_ratio {
                    Some(own) => own,
                    None => viewport_aspect,
                };
                match c.z_far {
                    Some(far) => mat4_perspective(aspect, c.y_fov_rad, c.z_near, far),
                    None => mat4_infinite_perspective(aspect, c.y_fov_rad, c.z_near),
                }
            },
            Projection::Orthographic(c) => {
                let zero = scalar_zero();
                let left = scalar_sub(zero, c.x_mag);
                let bottom = scalar_sub(zero, c.y_mag);
                mat4_orthographic((left, c.x_mag, bottom, c.y_mag, c.z_near, c.z_far))
            },
        }
    }
}

/// A camera. Only enabled cameras are candidates for the active camera.
#[derive(Clone, Debug, PartialEq)]
pub struct Camera {
    pub name: String,
    pub projection: Projection,
    pub enabled: bool,
}

/// How the simulation treats a body. Only `Dynamic` bodies are moved by it;
/// `Static` and `Fixed` bodies are immovable obstacles.
#[derive(Clone, Copy, Debug, PartialEq, Eq, Structural)]
pub enum BodyType {
    Static,
    Dynamic,
    Fixed,
}

/// Identifies a body of the simulation by slot and generation.
#[derive(Clone, Copy, Debug, PartialEq, Eq, Hash, Structural)]
pub struct PhysicsHandle {
    pub index: u32,
    pub generation: u32,
}

/// Marks an entity as the owner of one body of the simulation.
#[derive(Clone, Copy, Debug, PartialEq, Eq, Structural)]
pub struct RigidBody {
    pub handle: PhysicsHandle,
    pub body_type: BodyType,
}

impl RigidBody {
    /// The component for a body of the given handle and type.
    pub fn new(handle: PhysicsHandle, body_type: BodyType) -> (b: RigidBody)
        ensures
            b == (RigidBody { handle, body_type }),
    {
        RigidBody { handle, body_type }
    }
}

/// A label for editors.
#[derive(Clone, Debug, PartialEq, Eq)]
pub struct Name(pub String);

/// Marks an entity as selected in an editor.
#[derive(Clone, Copy, Debug, Default, PartialEq, Eq, Structural)]
pub struct Selected;

/// Everything one entity holds: at most one component of each kind.
#[derive(Clone, Debug, PartialEq)]
pub struct Row {
    pub transform: Option<Transform>,
    pub mesh_render: Option<MeshRender>,
    pub camera: Option<Camera>,
    pub rigid_body: Option<RigidBody>,
    pub name: Option<Name>,
    pub selected: Option<Selected>,
}

impl Row {
    /// The row of an entity that holds nothing.
    pub open spec fn empty() -> Row {
        Row {
            transform: None,
            mesh_render: None,
            camera: None,
            rigid_body: None,
            name: None,
            selected: None,
        }
    }

    /// A row without components.
    pub fn new() -> (row: Row)
        ensures
            row == Row::empty(),
    {
        Row {
            transform: None,
            mesh_render: None,
            camera: None,
            rigid_body: None,
            name: None,
            selected: None,
        }
    }
}

/// A kind of component: it knows its own column of a row.
pub trait Component: Sized {
    /// What the row holds of this kind.
    spec fn column(row: Row) -> Option<Self>;

    /// The row with this kind's column replaced and every other column kept.
    spec fn with_column(row: Row, value: Option<Self>) -> Row;

    /// Reading a column gives back what was last written to it, and writing
    /// back what was read changes nothing.
    proof fn column_laws(row: Row, value: Option<Self>)
        ensures
            Self::column(Self::with_column(row, value)) == value,
            Self::with_column(row, Self::column(row)) == row,
            Self::column(Row::empty()).is_none(),
    ;

    /// Borrows this kind's component from a row.
    fn borrow(row: &Row) -> (r: Option<&Self>)
        ensures
            r.is_some() == Self::column(*row).is_some(),
            r.is_some() ==> *r.unwrap() == Self::column(*row).unwrap(),
    ;

    /// Borrows this kind's component from a row for writing.
    fn borrow_mut(row: &mut Row) -> (r: Option<&mut Self>)
        ensures
            r.is_some() == Self::column(*old(row)).is_some(),
            r.is_some() ==> *r.unwrap() == Self::column(*old(row)).unwrap(),
            r.is_some() ==> *final(row) == Self::with_column(
                *old(row),
                Some(*final(r.unwrap())),
            ),
            r.is_none() ==> *final(row) == *old(row),
    ;

    /// Writes this kind's column and hands back what it held.
    fn replace(row: &mut Row, value: Option<Self>) -> (prev: Option<Self>)
        ensures
            prev == Self::column(*old(row)),
            *final(row) == Self::with_column(*old(row), value),
    ;
}

/// A kind of component that callers of the world attach, detach and change
/// as they like. `RigidBody` is not one: the world hands it out together
/// with the body it names, and takes both back together.
pub trait FreeComponent: Component {
    /// Writing a column of this kind leaves the `RigidBody` of a row alone.
    proof fn keeps_rigid_body()
        ensures
            forall|row: Row, value: Option<Self>|
                (#[trigger] Self::with_column(row, value)).rigid_body == row.rigid_body,
    ;
}

impl FreeComponent for Transform {
    proof fn keeps_rigid_body() {
    }
}

impl FreeComponent for MeshRender {
    proof fn keeps_rigid_body() {
    }
}

impl FreeComponent for Camera {
    proof fn keeps_rigid_body() {
    }
}

impl FreeComponent for Name {
    proof fn keeps_rigid_body() {
    }
}

impl FreeComponent for Selected {
    proof fn keeps_rigid_body() {
    }
}

impl Component for Transform {
    open spec fn column(row: Row) -> Option<Self> {
        row.transform
    }

    open spec fn with_column(row: Row, value: Option<Self>) -> Row {
        Row { transform: value, ..row }
    }

    proof fn column_laws(row: Row, value: Option<Self>) {
    }

    fn borrow(row: &Row) -> (r: Option<&Self>) {
        row.transform.as_ref()
    }

    fn borrow_mut(row: &mut Row) -> (r: Option<&mut Self>) {
        match &mut row.transform {
            Some(v) => Some(v),
            None => None,
        }
    }

    fn replace(row: &mut Row, value: Option<Self>) -> (prev: Option<Self>) {
        let mut held = value;
        std::mem::swap(&mut row.transform, &mut held);
        held
    }
}

impl Component for MeshRender {
    open spec fn column(row: Row) -> Option<Self> {
        row.mesh_render
    }

    open spec fn with_column(row: Row, value: Option<Self>) -> Row {
        Row { mesh_render: value, ..row }
    }

    proof fn column_laws(row: Row, value: Option<Self>) {
    }

    fn borrow(row: &Row) -> (r: Option<&Self>) {
        row.mesh_render.as_ref()
    }

    fn borrow_mut(row: &mut Row) -> (r: Option<&mut Self>) {
        match &mut row.mesh_render {
            Some(v) => Some(v),
            None => None,
        }
    }

    fn replace(row: &mut Row, value: Option<Self>) -> (prev: Option<Self>) {
        let mut held = value;
        std::mem::swap(&mut row.mesh_render, &mut held);
        held
    }
}

impl Component for Camera {
    open spec fn column(row: Row) -> Option<Self> {
        row.camera
    }

    open spec fn with_column(row: Row, value: Option<Self>) -> Row {
        Row { camera: value, ..row }
    }

    proof fn column_laws(row: Row, value: Option<Self>) {
    }

    fn borrow(row: &Row) -> (r: Option<&Self>) {
        row.camera.as_ref()
    }

    fn borrow_mut(row: &mut Row) -> (r: Option<&mut Self>) {
        match &mut row.camera {
            Some(v) => Some(v),
            None => None,
        }
    }

    fn replace(row: &mut Row, value: Option<Self>) -> (prev: Option<Self>) {
        let mut held = value;
        std::mem::swap(&mut row.camera, &mut held);
        held
    }
}

impl Component for RigidBody {
    open spec fn column(row: Row) -> Option<Self> {
        row.rigid_body
    }

    open spec fn with_column(row: Row, value: Option<Self>) -> Row {
        Row { rigid_body: value, ..row }
    }

    proof fn column_laws(row: Row, value: Option<Self>) {
    }

    fn borrow(row: &Row) -> (r: Option<&Self>) {
        row.rigid_body.as_ref()
    }

    fn borrow_mut(row: &mut Row) -> (r: Option<&mut Self>) {
        match &mut row.rigid_body {
            Some(v) => Some(v),
            None => None,
        }
    }

    fn replace(row: &mut Row, value: Option<Self>) -> (prev: Option<Self>) {
        let mut held = value;
        std::mem::swap(&mut row.rigid_body, &mut held);
        held
    }
}

impl Component for Name {
    open spec fn column(row: Row) -> Option<Self> {
        row.name
    }

    open spec fn with_column(row: Row, value: Option<Self>) -> Row {
        Row { name: value, ..row }
    }

    proof fn column_laws(row: Row, value: Option<Self>) {
    }

    fn borrow(row: &Row) -> (r: Option<&Self>) {
        row.name.as_ref()
    }

    fn borrow_mut(row: &mut Row) -> (r: Option<&mut Self>) {
        match &mut row.name {
            Some(v) => Some(v),
            None => None,
        }
    }

    fn replace(row: &mut Row, value: Option<Self>) -> (prev: Option<Self>) {
        let mut held = value;
        std::mem::swap(&mut row.name, &mut held);
        held
    }
}

impl Component for Selected {
    open spec fn column(row: Row) -> Option<Self> {
        row.selected
    }

    open spec fn with_column(row: Row, value: Option<Self>) -> Row {
        Row { selected: value, ..row }
    }

    proof fn column_laws(row: Row, value: Option<Self>) {
    }

    fn borrow(row: &Row) -> (r: Option<&Self>) {
        row.selected.as_ref()
    }

    fn borrow_mut(row: &mut Row) -> (r: Option<&mut Self>) {
        match &mut row.selected {
            Some(v) => Some(v),
            None => None,
        }
    }

    fn replace(row: &mut Row, value: Option<Self>) -> (prev: Option<Self>) {
        let mut held = value;
        std::mem::swap(&mut row.selected, &mut held);
        held
    }
}

} // verus!
