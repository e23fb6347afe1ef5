//! Unit blocks: their position, their kind, and the six textured quads that
//! draw them.
use vstd::prelude::*;
use crate::faces::{step, Faces, Step};

verus! {

/// Position of a block: the centre of a unit cube on the integer grid.
#[derive(Clone, Copy, PartialEq, Eq, Structural, Debug)]
pub struct BlockPos {
    pub x: i64,
    pub y: i64,
    pub z: i64,
}

impl BlockPos {
    /// Whether every coordinate lies strictly inside the range of `i64`, so
    /// that each of the six neighbours has a position too.
    pub open spec fn is_interior(self) -> bool {
        &&& i64::MIN < self.x < i64::MAX
        &&& i64::MIN < self.y < i64::MAX
        &&& i64::MIN < self.z < i64::MAX
    }

    /// Whether `self + d` stays within the range of `i64`.
    pub open spec fn can_add(self, d: Step) -> bool {
        &&& i64::MIN <= self.x + d.x <= i64::MAX
        &&& i64::MIN <= self.y + d.y <= i64::MAX
        &&& i64::MIN <= self.z + d.z <= i64::MAX
    }

    /// `self + d`, componentwise.
    pub open spec fn add(self, d: Step) -> BlockPos {
        BlockPos { x: (self.x + d.x) as i64, y: (self.y + d.y) as i64, z: (self.z + d.z) as i64 }
    }

    /// `self - d`, componentwise.
    pub open spec fn sub(self, d: Step) -> BlockPos {
        BlockPos { x: (self.x - d.x) as i64, y: (self.y - d.y) as i64, z: (self.z - d.z) as i64 }
    }

    /// Whether `self - d` stays within the range of `i64`.
    pub open spec fn can_sub(self, d: Step) -> bool {
        &&& i64::MIN <= self.x - d.x <= i64::MAX
        &&& i64::MIN <= self.y - d.y <= i64::MAX
        &&& i64::MIN <= self.z - d.z <= i64::MAX
    }

    /// The position of the block that touches this one across face `f`.
    pub open spec fn spec_neighbor(self, f: Faces) -> BlockPos {
        self.add(f.dir())
    }

    /// The position of the block that touches this one across face `f`.
    pub fn neighbor(&self, f: Faces) -> (p: BlockPos)
        requires
            self.can_add(f.dir()),
        ensures
            p == self.spec_neighbor(f),
    {
        let d = f.direction();
        BlockPos { x: self.x + d.x as i64, y: self.y + d.y as i64, z: self.z + d.z as i64 }
    }

    /// `self - d`, componentwise.
    pub fn minus(&self, d: Step) -> (p: BlockPos)
        requires
            self.can_sub(d),
        ensures
            p == self.sub(d),
    {
        BlockPos { x: self.x - d.x as i64, y: self.y - d.y as i64, z: self.z - d.z as i64 }
    }
}

/// What a block is made of.
#[derive(Clone, Copy, PartialEq, Eq, Structural, Debug)]
pub enum BlockKind {
    Grass,
    Dirt,
}

/// Texture index of "dirt.png", the first texture the renderer loads.
pub const TEXTURE_DIRT: u32 = 0;

/// Texture index of "grass_side.png".
pub const TEXTURE_GRASS_SIDE: u32 = 1;

/// Texture index of "grass_top.png".
pub const TEXTURE_GRASS_TOP: u32 = 2;

/// The texture drawn on face `f` of a block of kind `k`: grass shows its
/// top texture above, dirt below and its side texture around; dirt is dirt
/// on every face.
pub open spec fn texture_of(k: BlockKind, f: Faces) -> u32 {
    match k {
        BlockKind::Grass => match f {
            Faces::Up => TEXTURE_GRASS_TOP,
            Faces::Down => TEXTURE_DIRT,
            _ => TEXTURE_GRASS_SIDE,
        },
        BlockKind::Dirt => TEXTURE_DIRT,
    }
}

/// The face drawn by the `i`-th quad of a block.
pub open spec fn quad_face(i: int) -> Faces {
    if i == 0 {
        Faces::Back
    } else if i == 1 {
        Faces::Right
    } else if i == 2 {
        Faces::Left
    } else if i == 3 {
        Faces::Front
    } else if i == 4 {
        Faces::Up
    } else {
        Faces::Down
    }
}

/// The corner where the quad of face `f` starts, in half blocks from the
/// block's centre.
pub open spec fn quad_corner(f: Faces) -> Step {
    match f {
        Faces::Back => step(-1, -1, -1),
        Faces::Right => step(1, -1, -1),
        Faces::Left => step(-1, -1, 1),
        Faces::Front => step(1, -1, 1),
        Faces::Up => step(-1, 1, -1),
        Faces::Down => step(-1, -1, -1),
    }
}

/// The first edge of the quad of face `f`, in whole blocks.
pub open spec fn quad_u(f: Faces) -> Step {
    match f {
        Faces::Back => step(1, 0, 0),
        Faces::Right => step(0, 0, 1),
        Faces::Left => step(0, 0, -1),
        Faces::Front => step(-1, 0, 0),
        Faces::Up => step(1, 0, 0),
        Faces::Down => step(0, 0, 1),
    }
}

/// The second edge of the quad of face `f`, in whole blocks.
pub open spec fn quad_v(f: Faces) -> Step {
    match f {
        Faces::Up => step(0, 0, 1),
        Faces::Down => step(1, 0, 0),
        _ => step(0, 1, 0),
    }
}

/// One textured square of a block's surface: it starts at `corner` (half
/// blocks from the block's centre) and spans the edges `u` and `v` (whole
/// blocks).
#[derive(Clone, Copy, PartialEq, Eq, Structural, Debug)]
pub struct BlockQuad {
    pub face: Faces,
    pub corner: Step,
    pub u: Step,
    pub v: Step,
    pub texture: u32,
}

/// The quad of face `f` of a block of kind `k`.
pub open spec fn spec_quad(k: BlockKind, f: Faces) -> BlockQuad {
    BlockQuad { face: f, corner: quad_corner(f), u: quad_u(f), v: quad_v(f), texture: texture_of(k, f) }
}

/// The quad of face `f` of a block of kind `k`.
pub fn face_quad(k: BlockKind, f: Faces) -> (q: BlockQuad)
    ensures
        q == spec_quad(k, f),
{
    let texture = match k {
        BlockKind::Grass => match f {
            Faces::Up => TEXTURE_GRASS_TOP,
            Faces::Down => TEXTURE_DIRT,
            _ => TEXTURE_GRASS_SIDE,
        },
        BlockKind::Dirt => TEXTURE_DIRT,
    };
    let (corner, u, v) = match f {
        Faces::Back => (Step { x: -1, y: -1, z: -1 }, Step { x: 1, y: 0, z: 0 }, Step { x: 0, y: 1, z: 0 }),
        Faces::Right => (Step { x: 1, y: -1, z: -1 }, Step { x: 0, y: 0, z: 1 }, Step { x: 0, y: 1, z: 0 }),
        Faces::Left => (Step { x: -1, y: -1, z: 1 }, Step { x: 0, y: 0, z: -1 }, Step { x: 0, y: 1, z: 0 }),
        Faces::Front => (Step { x: 1, y: -1, z: 1 }, Step { x: -1, y: 0, z: 0 }, Step { x: 0, y: 1, z: 0 }),
        Faces::Up => (Step { x: -1, y: 1, z: -1 }, Step { x: 1, y: 0, z: 0 }, Step { x: 0, y: 0, z: 1 }),
        Faces::Down => (Step { x: -1, y: -1, z: -1 }, Step { x: 0, y: 0, z: 1 }, Step { x: 1, y: 0, z: 0 }),
    };
    BlockQuad { face: f, corner, u, v, texture }
}

/// The position of face `f` among a block's quads; the inverse of
/// `quad_face`.
pub open spec fn face_index(f: Faces) -> int {
    match f {
        Faces::Back => 0,
        Faces::Right => 1,
        Faces::Left => 2,
        Faces::Front => 3,
        Faces::Up => 4,
        Faces::Down => 5,
    }
}

/// Each block draws every face exactly once: `face_index` and `quad_face`
/// undo each other, so the six quads show six different faces.
pub proof fn lemma_face_index(f: Faces, i: int)
    ensures
        0 <= face_index(f) < 6,
        quad_face(face_index(f)) == f,
        0 <= i < 6 ==> face_index(quad_face(i)) == i,
{
}

/// The face of the `i`-th quad of a block, for `i` in `0..6`.
pub fn face_of_quad(i: usize) -> (f: Faces)
    requires
        i < 6,
    ensures
        f == quad_face(i as int),
{
    if i == 0 {
        Faces::Back
    } else if i == 1 {
        Faces::Right
    } else if i == 2 {
        Faces::Left
    } else if i == 3 {
        Faces::Front
    } else if i == 4 {
        Faces::Up
    } else {
        Faces::Down
    }
}

/// A unit block of some kind at some position.
#[derive(Clone, Copy, PartialEq, Eq, Structural, Debug)]
pub struct Block {
    pub kind: BlockKind,
    pub pos: BlockPos,
}

impl Block {
    /// A grass block at `pos`.
    pub fn new_grass_block(pos: &BlockPos) -> (b: Block)
        ensures
            b.kind == BlockKind::Grass,
            b.pos == *pos,
    {
        Block { kind: BlockKind::Grass, pos: *pos }
    }

    /// A dirt block at `pos`.
    pub fn new_dirt_block(pos: &BlockPos) -> (b: Block)
        ensures
            b.kind == BlockKind::Dirt,
            b.pos == *pos,
    {
        Block { kind: BlockKind::Dirt, pos: *pos }
    }

    /// The position of the block.
    pub fn get_pos(&self) -> (p: BlockPos)
        ensures
            p == self.pos,
    {
        self.pos
    }

    /// The six quads that draw the block, one per face, in drawing order.
    pub fn get_renderables(&self) -> (quads: Vec<BlockQuad>)
        ensures
            quads@.len() == 6,
            forall|i: int| 0 <= i < 6 ==> #[trigger] quads@[i] == spec_quad(self.kind, quad_face(i)),
    {
        let mut quads: Vec<BlockQuad> = Vec::new();
        let mut i: usize = 0;
        while i < 6
            invariant
                i <= 6,
                quads@.len() == i,
                forall|j: int| 0 <= j < i ==> #[trigger] quads@[j] == spec_quad(self.kind, quad_face(j)),
            decreases 6 - i,
        {
            let f = face_of_quad(i);
            quads.push(face_quad(self.kind, f));
            i = i + 1;
        }
        quads
    }
}

/// The quad of face `f` is the face of the unit cube on that side: its
/// corner is a corner of the cube on the face's plane, its edges are unit
/// axis vectors at right angles to each other and to the face's direction,
/// its centre lies half a block out along the face's direction, and its
/// normal `u × v` points into the block.
pub proof fn lemma_quad_geometry(k: BlockKind, f: Faces)
    ensures
        ({
            let q = spec_quad(k, f);
            let d = f.dir();
            &&& q.face == f
            &&& q.corner.x * q.corner.x == 1 && q.corner.y * q.corner.y == 1 && q.corner.z * q.corner.z == 1
            &&& q.corner.dot(d) == 1
            &&& q.u.is_axis_unit() && q.v.is_axis_unit()
            &&& q.u.dot(q.v) == 0 && q.u.dot(d) == 0 && q.v.dot(d) == 0
            &&& q.corner.x + q.u.x + q.v.x == d.x
            &&& q.corner.y + q.u.y + q.v.y == d.y
            &&& q.corner.z + q.u.z + q.v.z == d.z
            &&& q.u.cross(q.v) == (-d.x as int, -d.y as int, -d.z as int)
        }),
{
    assert((-1int) as i8 == -1i8 && 1int as i8 == 1i8 && 0int as i8 == 0i8);
    match f {
        Faces::Front => {},
        Faces::Back => {},
        Faces::Left => {},
        Faces::Right => {},
        Faces::Up => {},
        Faces::Down => {},
    }
}

} // verus!
