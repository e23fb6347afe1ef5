//! Faces of a unit block and small integer vectors.
use vstd::prelude::*;

verus! {

/// A small integer vector: a direction, an edge of a quad, or an offset
/// measured in half blocks.
#[derive(Clone, Copy, PartialEq, Eq, Structural, Debug)]
pub struct Step {
    pub x: i8,
    pub y: i8,
    pub z: i8,
}

/// Builds a `Step` in specifications.
pub open spec fn step(x: int, y: int, z: int) -> Step {
    Step { x: x as i8, y: y as i8, z: z as i8 }
}

impl Step {
    /// The vector pointing the other way.
    pub open spec fn neg(self) -> Step {
        step(-self.x, -self.y, -self.z)
    }

    /// The cross product `self × other`.
    pub open spec fn cross(self, other: Step) -> (int, int, int) {
        (
            self.y * other.z - self.z * other.y,
            self.z * other.x - self.x * other.z,
            self.x * other.y - self.y * other.x,
        )
    }

    /// The dot product.
    pub open spec fn dot(self, other: Step) -> int {
        self.x * other.x + self.y * other.y + self.z * other.z
    }

    /// A unit vector along one of the three axes.
    pub open spec fn is_axis_unit(self) -> bool {
        ||| self == step(1, 0, 0)
        ||| self == step(-1, 0, 0)
        ||| self == step(0, 1, 0)
        ||| self == step(0, -1, 0)
        ||| self == step(0, 0, 1)
        ||| self == step(0, 0, -1)
    }
}

/// The six faces of a unit block, named as seen by a player who looks
/// along +z: Front is +z, Back is -z, Right is +x, Left is -x, Up is +y and
/// Down is -y.
#[derive(Clone, Copy, PartialEq, Eq, Structural, Debug)]
pub enum Faces {
    Front,
    Back,
    Left,
    Right,
    Up,
    Down,
}

impl Faces {
    /// The outward unit direction of the face.
    pub open spec fn dir(self) -> Step {
        match self {
            Faces::Front => step(0, 0, 1),
            Faces::Back => step(0, 0, -1),
            Faces::Left => step(-1, 0, 0),
            Faces::Right => step(1, 0, 0),
            Faces::Up => step(0, 1, 0),
            Faces::Down => step(0, -1, 0),
        }
    }

    /// The face on the other side of the block.
    pub open spec fn spec_opposite(self) -> Faces {
        match self {
            Faces::Front => Faces::Back,
            Faces::Back => Faces::Front,
            Faces::Left => Faces::Right,
            Faces::Right => Faces::Left,
            Faces::Up => Faces::Down,
            Faces::Down => Faces::Up,
        }
    }

    /// The outward unit direction of the face.
    pub fn direction(&self) -> (d: Step)
        ensures
            d == self.dir(),
    {
        match self {
            Faces::Front => Step { x: 0, y: 0, z: 1 },
            Faces::Back => Step { x: 0, y: 0, z: -1 },
            Faces::Left => Step { x: -1, y: 0, z: 0 },
            Faces::Right => Step { x: 1, y: 0, z: 0 },
            Faces::Up => Step { x: 0, y: 1, z: 0 },
            Faces::Down => Step { x: 0, y: -1, z: 0 },
        }
    }

    /// The face on the other side of the block.
    pub fn opposite(&self) -> (f: Faces)
        ensures
            f == self.spec_opposite(),
    {
        match self {
            Faces::Front => Faces::Back,
            Faces::Back => Faces::Front,
            Faces::Left => Faces::Right,
            Faces::Right => Faces::Left,
            Faces::Up => Faces::Down,
            Faces::Down => Faces::Up,
        }
    }
}

/// Each face points along one axis, the opposite face points the other way,
/// and taking the opposite twice gives the face back.
pub proof fn lemma_face_directions(f: Faces)
    ensures
        f.dir().is_axis_unit(),
        f.spec_opposite().dir() == f.dir().neg(),
        f.spec_opposite().spec_opposite() == f,
        f.spec_opposite() != f,
{
}

/// Different faces point in different directions.
pub proof fn lemma_face_directions_distinct(f: Faces, g: Faces)
    ensures
        f.dir() == g.dir() <==> f == g,
{
}

} // verus!
