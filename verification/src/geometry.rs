//! Cached geometry: the meshes that `MeshRender` components name.

use vstd::prelude::*;
use crate::math::Vec3;
use crate::simulation::{triangles_within, Triangle};

verus! {

/// One piece of a mesh: vertex positions, and triangles over them.
#[derive(Clone, Debug, PartialEq)]
pub struct Primitive {
    pub positions: Vec<Vec3>,
    pub triangles: Vec<Triangle>,
}

impl Primitive {
    /// Whether every triangle names three vertices of this primitive.
    pub fn is_closed(&self) -> (ok: bool)
        ensures
            ok == triangles_within(self.triangles@, self.positions@.len()),
    {
        let count: usize = self.positions.len();
        let n: usize = self.triangles.len();
        let mut k: usize = 0;
        while k < n
            invariant
                k <= n,
                n == self.triangles.len(),
                count == self.positions.len(),
                triangles_within(self.triangles@.take(k as int), count as nat),
            decreases n - k,
        {
            let t = self.triangles[k];
            if !(u32_below(t.a, count) && u32_below(t.b, count) && u32_below(t.c, count)) {
                return false;
            }
            assert forall|j: int| 0 <= j < k + 1 implies {
                &&& (#[trigger] self.triangles@.take(k + 1)[j]).a < count
                &&& self.triangles@.take(k + 1)[j].b < count
                &&& self.triangles@.take(k + 1)[j].c < count
            } by {
                if j < k {
                    assert(self.triangles@.take(k as int)[j] == self.triangles@[j]);
                }
            }
            k = k + 1;
        }
        assert(self.triangles@.take(n as int) =~= self.triangles@);
        true
    }
}

/// Whether a vertex number is below a count.
fn u32_below(i: u32, count: usize) -> (b: bool)
    ensures
        b == ((i as int) < (count as int)),
{
    match usize::try_from(i) {
        Ok(wide) => wide < count,
        Err(_) => false,
    }
}

/// A named mesh.
#[derive(Clone, Debug, PartialEq)]
pub struct Mesh {
    pub name: String,
    pub primitives: Vec<Primitive>,
}

impl Mesh {
    /// Whether every primitive of a mesh is closed.
    pub open spec fn closed(self) -> bool {
        forall|k: int|
            0 <= k < self.primitives@.len() ==> triangles_within(
                (#[trigger] self.primitives@[k]).triangles@,
                self.primitives@[k].positions@.len(),
            )
    }

    /// Whether every triangle of every primitive names three vertices of
    /// that primitive.
    pub fn is_closed(&self) -> (ok: bool)
        ensures
            ok == self.closed(),
    {
        let n: usize = self.primitives.len();
        let mut k: usize = 0;
        while k < n
            invariant
                k <= n,
                n == self.primitives.len(),
                forall|j: int|
                    0 <= j < k ==> triangles_within(
                        (#[trigger] self.primitives@[j]).triangles@,
                        self.primitives@[j].positions@.len(),
                    ),
            decreases n - k,
        {
            if !self.primitives[k].is_closed() {
                return false;
            }
            k = k + 1;
        }
        true
    }
}

/// The meshes of a world, found by name.
pub struct Geometry {
    pub meshes: Vec<Mesh>,
}

impl Geometry {
    /// No meshes.
    pub fn new() -> (g: Geometry)
        ensures
            g.meshes@.len() == 0,
    {
        Geometry { meshes: Vec::new() }
    }

    /// The position of the first mesh of a name in a list, or -1.
    pub open spec fn position_of(meshes: Seq<Mesh>, name: Seq<char>) -> int
        decreases meshes.len(),
    {
        if meshes.len() == 0 {
            -1
        } else if meshes[0].name@ == name {
            0
        } else {
            let rest = Self::position_of(meshes.skip(1), name);
            if rest < 0 {
                -1
            } else {
                rest + 1
            }
        }
    }

    /// Adds a mesh at the end of the list.
    pub fn insert(&mut self, mesh: Mesh)
        ensures
            final(self).meshes@ == old(self).meshes@.push(mesh),
    {
        self.meshes.push(mesh);
    }

    /// The first mesh of the given name.
    pub fn find(&self, name: &String) -> (found: Option<&Mesh>)
        ensures
            found.is_some() == (Self::position_of(self.meshes@, name@) >= 0),
            found.is_some() ==> Self::position_of(self.meshes@, name@) < self.meshes@.len()
                && *found.unwrap() == self.meshes@[Self::position_of(self.meshes@, name@)],
    {
        let n: usize = self.meshes.len();
        let mut k: usize = 0;
        assert(self.meshes@.skip(0) =~= self.meshes@);
        while k < n
            invariant
                k <= n,
                n == self.meshes.len(),
                Self::position_of(self.meshes@.skip(k as int), name@) < 0 ==> Self::position_of(
                    self.meshes@,
                    name@,
                ) < 0,
                Self::position_of(self.meshes@.skip(k as int), name@) >= 0 ==> Self::position_of(
                    self.meshes@,
                    name@,
                ) == k + Self::position_of(self.meshes@.skip(k as int), name@),
            decreases n - k,
        {
            let rest = Ghost(self.meshes@.skip(k as int));
            assert(rest@[0] == self.meshes@[k as int]);
            assert(rest@.skip(1) =~= self.meshes@.skip(k + 1));
            if self.meshes[k].name == *name {
                return Some(&self.meshes[k]);
            }
            k = k + 1;
        }
        assert(self.meshes@.skip(n as int).len() == 0);
        None
    }
}

} // verus!
