//! The world: blocks at distinct grid positions, the initial terrain, and
//! which faces of the blocks can be seen.
use vstd::prelude::*;
use crate::block::{
    face_index, face_of_quad, face_quad, lemma_face_index, spec_quad, Block, BlockKind,
    BlockPos, BlockQuad,
};
use crate::faces::{Faces, Step};

verus! {

/// No two blocks of `s` share a position.
pub open spec fn unique_positions(s: Seq<Block>) -> bool {
    forall|i: int, j: int|
        0 <= i < s.len() && 0 <= j < s.len() && i != j ==> #[trigger] s[i].pos != #[trigger] s[j].pos
}

/// Some block of `s` stands at `p`.
pub open spec fn holds_pos(s: Seq<Block>, p: BlockPos) -> bool {
    exists|i: int| 0 <= i < s.len() && #[trigger] s[i].pos == p
}

/// Some block among the first `n` of `s` stands at `p`.
spec fn pos_among(s: Seq<Block>, n: int, p: BlockPos) -> bool {
    exists|b: int| 0 <= b < n && #[trigger] s[b].pos == p
}

/// The map from position to kind that a list of blocks describes.
pub open spec fn blocks_map(s: Seq<Block>) -> Map<BlockPos, BlockKind> {
    Map::new(
        |p: BlockPos| holds_pos(s, p),
        |p: BlockPos| s[choose|i: int| 0 <= i < s.len() && #[trigger] s[i].pos == p].kind,
    )
}

/// In a list without repeated positions, each block's position maps to its
/// kind.
proof fn lemma_blocks_map_at(s: Seq<Block>, i: int)
    requires
        unique_positions(s),
        0 <= i < s.len(),
    ensures
        blocks_map(s).dom().contains(s[i].pos),
        blocks_map(s)[s[i].pos] == s[i].kind,
{
    let p = s[i].pos;
    assert(holds_pos(s, p));
    let c = choose|j: int| 0 <= j < s.len() && #[trigger] s[j].pos == p;
    assert(s[c].pos == p);
    assert(c == i);
}

/// Whether face `f` of the block at `p` is open to the air in world `m`.
pub open spec fn face_exposed(m: Map<BlockPos, BlockKind>, p: BlockPos, f: Faces) -> bool {
    !m.dom().contains(p.spec_neighbor(f))
}

/// Whether `e` is a quad that world `m` shows: the quad of an exposed face
/// of a block of `m`, textured for that block's kind.
pub open spec fn is_visible_quad(m: Map<BlockPos, BlockKind>, e: (BlockPos, BlockQuad)) -> bool {
    &&& m.dom().contains(e.0)
    &&& e.1 == spec_quad(m[e.0], e.1.face)
    &&& face_exposed(m, e.0, e.1.face)
}

/// Whether `a` comes before `b` when positions are ordered by `x`, then `y`,
/// then `z`.
pub open spec fn pos_lt(a: BlockPos, b: BlockPos) -> bool {
    ||| a.x < b.x
    ||| (a.x == b.x && a.y < b.y)
    ||| (a.x == b.x && a.y == b.y && a.z < b.z)
}

/// The blocks of `s` stand in strictly increasing order of position.
pub open spec fn sorted_positions(s: Seq<Block>) -> bool {
    forall|i: int, j: int| 0 <= i < j < s.len() ==> pos_lt(#[trigger] s[i].pos, #[trigger] s[j].pos)
}

/// Blocks in strictly increasing order stand at distinct positions.
proof fn lemma_sorted_unique(s: Seq<Block>)
    requires
        sorted_positions(s),
    ensures
        unique_positions(s),
{
    assert forall|i: int, j: int|
        0 <= i < s.len() && 0 <= j < s.len() && i != j implies #[trigger] s[i].pos != #[trigger] s[j].pos by {
        if i < j {
            assert(pos_lt(s[i].pos, s[j].pos));
        } else {
            assert(pos_lt(s[j].pos, s[i].pos));
        }
    }
}

/// Whether `a` comes before `b` in the order of positions.
fn pos_less(a: &BlockPos, b: &BlockPos) -> (r: bool)
    ensures
        r == pos_lt(*a, *b),
{
    a.x < b.x || (a.x == b.x && (a.y < b.y || (a.y == b.y && a.z < b.z)))
}

/// Binary search for `pos` in blocks sorted by position: `Ok` with the
/// index of the block at `pos`, or `Err` with the index where a block at
/// `pos` would go.
fn search(blocks: &Vec<Block>, pos: &BlockPos) -> (r: Result<usize, usize>)
    requires
        sorted_positions(blocks@),
    ensures
        match r {
            Ok(i) => i < blocks@.len() && blocks@[i as int].pos == *pos,
            Err(i) => {
                &&& i <= blocks@.len()
                &&& forall|j: int| 0 <= j < i ==> pos_lt(#[trigger] blocks@[j].pos, *pos)
                &&& forall|j: int| i <= j < blocks@.len() ==> pos_lt(*pos, #[trigger] blocks@[j].pos)
            },
        },
        r is Err ==> !holds_pos(blocks@, *pos),
{
    let mut lo: usize = 0;
    let mut hi: usize = blocks.len();
    while lo < hi
        invariant
            sorted_positions(blocks@),
            lo <= hi <= blocks@.len(),
            forall|j: int| 0 <= j < lo ==> pos_lt(#[trigger] blocks@[j].pos, *pos),
            forall|j: int| hi <= j < blocks@.len() ==> pos_lt(*pos, #[trigger] blocks@[j].pos),
        decreases hi - lo,
    {
        let mid = lo + (hi - lo) / 2;
        let m = blocks[mid].pos;
        if m == *pos {
            return Ok(mid);
        }
        if pos_less(&m, pos) {
            assert forall|j: int| 0 <= j < mid + 1 implies pos_lt(#[trigger] blocks@[j].pos, *pos) by {
                if j < mid {
                    assert(pos_lt(blocks@[j].pos, blocks@[mid as int].pos));
                }
            }
            lo = mid + 1;
        } else {
            assert forall|j: int| mid <= j < blocks@.len() implies pos_lt(*pos, #[trigger] blocks@[j].pos) by {
                if j > mid {
                    assert(pos_lt(blocks@[mid as int].pos, blocks@[j].pos));
                }
            }
            hi = mid;
        }
    }
    assert forall|j: int| 0 <= j < blocks@.len() implies #[trigger] blocks@[j].pos != *pos by {
        if j < lo {
            assert(pos_lt(blocks@[j].pos, *pos));
        } else {
            assert(pos_lt(*pos, blocks@[j].pos));
        }
    }
    Err(lo)
}

/// The columns of the starting terrain: 20 by 20 of them, for `x` and `z`
/// from -10 up to but not including 10.
pub open spec fn in_terrain_column(x: int, z: int) -> bool {
    -10 <= x < 10 && -10 <= z < 10
}

/// Whether the starting terrain has a block at `p`: three layers, at
/// heights 1, 2 and 3, over every column.
pub open spec fn in_terrain(p: BlockPos) -> bool {
    in_terrain_column(p.x as int, p.z as int) && 1 <= p.y <= 3
}

/// The kind of the starting terrain's block at height `y`: grass on top,
/// dirt below.
pub open spec fn terrain_kind(y: int) -> BlockKind {
    if y == 3 {
        BlockKind::Grass
    } else {
        BlockKind::Dirt
    }
}

/// The starting terrain.
pub open spec fn terrain() -> Map<BlockPos, BlockKind> {
    Map::new(|p: BlockPos| in_terrain(p), |p: BlockPos| terrain_kind(p.y as int))
}

/// The part of the starting terrain whose column `(px, pz)` comes before
/// `(x, z)`, columns ordered by `x` and then by `z`.
pub open spec fn terrain_before(x: int, z: int) -> Map<BlockPos, BlockKind> {
    Map::new(
        |p: BlockPos| in_terrain(p) && (p.x < x || (p.x == x && p.z < z)),
        |p: BlockPos| terrain_kind(p.y as int),
    )
}

/// The blocks of the game, at most one per grid position, kept in order of
/// position so that a block is found by binary search.
pub struct World {
    blocks: Vec<Block>,
}

impl View for World {
    type V = Map<BlockPos, BlockKind>;

    closed spec fn view(&self) -> Map<BlockPos, BlockKind> {
        blocks_map(self.blocks@)
    }
}

impl World {
    #[verifier::type_invariant]
    spec fn inv(self) -> bool {
        &&& sorted_positions(self.blocks@)
        &&& forall|i: int| 0 <= i < self.blocks@.len() ==> (#[trigger] self.blocks@[i]).pos.is_interior()
    }

    /// An empty world.
    pub fn new() -> (w: World)
        ensures
            w@ == Map::<BlockPos, BlockKind>::empty(),
    {
        let w = World { blocks: Vec::new() };
        assert(w@ =~= Map::<BlockPos, BlockKind>::empty());
        w
    }

    /// The kind of the block at `pos`, if there is one.
    pub fn get(&self, pos: &BlockPos) -> (r: Option<BlockKind>)
        ensures
            r == (if self@.dom().contains(*pos) { Some(self@[*pos]) } else { None::<BlockKind> }),
    {
        proof {
            use_type_invariant(self);
            lemma_sorted_unique(self.blocks@);
        }
        match search(&self.blocks, pos) {
            Ok(i) => {
                proof {
                    lemma_blocks_map_at(self.blocks@, i as int);
                }
                Some(self.blocks[i].kind)
            },
            Err(_) => None,
        }
    }

    /// Whether a block stands at `pos`.
    pub fn contains_key(&self, pos: &BlockPos) -> (r: bool)
        ensures
            r == self@.dom().contains(*pos),
    {
        proof {
            use_type_invariant(self);
            lemma_sorted_unique(self.blocks@);
        }
        match search(&self.blocks, pos) {
            Ok(i) => {
                proof {
                    lemma_blocks_map_at(self.blocks@, i as int);
                }
                true
            },
            Err(_) => false,
        }
    }

    /// Puts `block` into the world, replacing the block at its position if
    /// there was one; returns the kind of the replaced block.
    pub fn insert(&mut self, block: Block) -> (prev: Option<BlockKind>)
        requires
            block.pos.is_interior(),
        ensures
            final(self)@ == old(self)@.insert(block.pos, block.kind),
            prev == (if old(self)@.dom().contains(block.pos) {
                Some(old(self)@[block.pos])
            } else {
                None::<BlockKind>
            }),
    {
        proof {
            use_type_invariant(&*self);
        }
        let ghost s = self.blocks@;
        proof {
            lemma_sorted_unique(s);
        }
        let mut blocks: Vec<Block> = Vec::new();
        std::mem::swap(&mut blocks, &mut self.blocks);
        let found = search(&blocks, &block.pos);
        let prev = match found {
            Ok(i) => {
                let old_kind = blocks[i].kind;
                proof {
                    lemma_blocks_map_at(s, i as int);
                }
                blocks.set(i, block);
                proof {
                    let s2 = blocks@;
                    assert forall|a: int, b: int| 0 <= a < b < s2.len() implies pos_lt(
                        #[trigger] s2[a].pos,
                        #[trigger] s2[b].pos,
                    ) by {
                        assert(s2[a].pos == s[a].pos && s2[b].pos == s[b].pos);
                        assert(pos_lt(s[a].pos, s[b].pos));
                    }
                    lemma_sorted_unique(s2);
                    assert forall|p: BlockPos| #[trigger] blocks_map(s2).dom().contains(p) <==> blocks_map(s).insert(block.pos, block.kind).dom().contains(p) by {
                        if holds_pos(s, p) {
                            let j = choose|j: int| 0 <= j < s.len() && #[trigger] s[j].pos == p;
                            assert(s2[j].pos == p);
                        }
                        if holds_pos(s2, p) {
                            let j = choose|j: int| 0 <= j < s2.len() && #[trigger] s2[j].pos == p;
                            assert(s[j].pos == p);
                        }
                        if p == block.pos {
                            assert(s2[i as int].pos == p);
                        }
                    }
                    assert forall|p: BlockPos| #[trigger] blocks_map(s2).dom().contains(p) implies blocks_map(s2)[p] == blocks_map(s).insert(block.pos, block.kind)[p] by {
                        let j = choose|j: int| 0 <= j < s2.len() && #[trigger] s2[j].pos == p;
                        lemma_blocks_map_at(s2, j);
                        if p != block.pos {
                            assert(s[j].pos == p);
                            lemma_blocks_map_at(s, j);
                        } else {
                            assert(s2[i as int].pos == p);
                        }
                    }
                    assert(blocks_map(s2) =~= blocks_map(s).insert(block.pos, block.kind));
                }
                Some(old_kind)
            },
            Err(i) => {
                blocks.insert(i, block);
                proof {
                    let s2 = blocks@;
                    assert(s2 =~= s.insert(i as int, block));
                    assert forall|a: int, b: int| 0 <= a < b < s2.len() implies pos_lt(
                        #[trigger] s2[a].pos,
                        #[trigger] s2[b].pos,
                    ) by {
                        if a < i && b < i {
                            assert(pos_lt(s[a].pos, s[b].pos));
                        } else if a < i && b == i {
                            assert(pos_lt(s[a].pos, block.pos));
                        } else if a < i {
                            assert(s2[b] == s[b - 1]);
                            assert(pos_lt(s[a].pos, s[b - 1].pos));
                        } else if a == i {
                            assert(s2[b] == s[b - 1]);
                            assert(pos_lt(block.pos, s[b - 1].pos));
                        } else {
                            assert(s2[a] == s[a - 1] && s2[b] == s[b - 1]);
                            assert(pos_lt(s[a - 1].pos, s[b - 1].pos));
                        }
                    }
                    lemma_sorted_unique(s2);
                    assert forall|p: BlockPos| #[trigger] blocks_map(s2).dom().contains(p) <==> blocks_map(s).insert(block.pos, block.kind).dom().contains(p) by {
                        if holds_pos(s, p) {
                            let j = choose|j: int| 0 <= j < s.len() && #[trigger] s[j].pos == p;
                            let j2 = if j < i { j } else { j + 1 };
                            assert(s2[j2] == s[j]);
                        }
                        if holds_pos(s2, p) && p != block.pos {
                            let j = choose|j: int| 0 <= j < s2.len() && #[trigger] s2[j].pos == p;
                            assert(j != i);
                            let j0 = if j < i { j } else { j - 1 };
                            assert(s[j0] == s2[j]);
                        }
                        if p == block.pos {
                            assert(s2[i as int].pos == p);
                        }
                    }
                    assert forall|p: BlockPos| #[trigger] blocks_map(s2).dom().contains(p) implies blocks_map(s2)[p] == blocks_map(s).insert(block.pos, block.kind)[p] by {
                        let j = choose|j: int| 0 <= j < s2.len() && #[trigger] s2[j].pos == p;
                        lemma_blocks_map_at(s2, j);
                        if p != block.pos {
                            assert(j != i);
                            let j0 = if j < i { j } else { j - 1 };
                            assert(s[j0] == s2[j]);
                            lemma_blocks_map_at(s, j0);
                        } else {
                            assert(s2[i as int].pos == p);
                        }
                    }
                    assert(blocks_map(s2) =~= blocks_map(s).insert(block.pos, block.kind));
                }
                None
            },
        };
        proof {
            let s2 = blocks@;
            assert forall|k: int| 0 <= k < s2.len() implies (#[trigger] s2[k]).pos.is_interior() by {
                match found {
                    Ok(i) => {
                        if k != i {
                            assert(s2[k] == s[k]);
                        }
                    },
                    Err(i) => {
                        if k < i {
                            assert(s2[k] == s[k]);
                        } else if k > i {
                            assert(s2[k] == s[k - 1]);
                        }
                    },
                }
            }
        }
        self.blocks = blocks;
        prev
    }

    /// The starting world: over each of the 20 by 20 columns, a grass block
    /// at height 3 on two dirt blocks at heights 2 and 1.
    pub fn generate_terrain() -> (w: World)
        ensures
            w@ == terrain(),
    {
        let mut w = World::new();
        assert(w@ =~= terrain_before(-10, -10));
        let mut x: i64 = -10;
        while x < 10
            invariant
                -10 <= x <= 10,
                w@ == terrain_before(x as int, -10),
            decreases 10 - x,
        {
            let mut z: i64 = -10;
            while z < 10
                invariant
                    -10 <= x < 10,
                    -10 <= z <= 10,
                    w@ == terrain_before(x as int, z as int),
                decreases 10 - z,
            {
                w.insert(Block::new_grass_block(&BlockPos { x, y: 3, z }));
                w.insert(Block::new_dirt_block(&BlockPos { x, y: 2, z }));
                w.insert(Block::new_dirt_block(&BlockPos { x, y: 1, z }));
                assert(w@ =~= terrain_before(x as int, z + 1));
                z = z + 1;
            }
            assert(w@ =~= terrain_before(x + 1, -10));
            x = x + 1;
        }
        assert(w@ =~= terrain());
        w
    }

    /// Takes the block at `pos` out of the world, if there is one; returns
    /// its kind.
    pub fn remove(&mut self, pos: &BlockPos) -> (prev: Option<BlockKind>)
        ensures
            final(self)@ == old(self)@.remove(*pos),
            prev == (if old(self)@.dom().contains(*pos) {
                Some(old(self)@[*pos])
            } else {
                None::<BlockKind>
            }),
    {
        proof {
            use_type_invariant(&*self);
        }
        let ghost s = self.blocks@;
        proof {
            lemma_sorted_unique(s);
        }
        match search(&self.blocks, pos) {
            Err(_) => {
                assert(blocks_map(s) =~= blocks_map(s).remove(*pos));
                None
            },
            Ok(i) => {
                let mut blocks: Vec<Block> = Vec::new();
                std::mem::swap(&mut blocks, &mut self.blocks);
                proof {
                    lemma_blocks_map_at(s, i as int);
                }
                let removed = blocks.remove(i);
                proof {
                    let s2 = blocks@;
                    assert(s2 =~= s.remove(i as int));
                    assert forall|a: int, b: int| 0 <= a < b < s2.len() implies pos_lt(
                        #[trigger] s2[a].pos,
                        #[trigger] s2[b].pos,
                    ) by {
                        let a0 = if a < i { a } else { a + 1 };
                        let b0 = if b < i { b } else { b + 1 };
                        assert(s2[a] == s[a0]);
                        assert(s2[b] == s[b0]);
                        assert(pos_lt(s[a0].pos, s[b0].pos));
                    }
                    lemma_sorted_unique(s2);
                    assert forall|k: int| 0 <= k < s2.len() implies (#[trigger] s2[k]).pos.is_interior() by {
                        let k0 = if k < i { k } else { k + 1 };
                        assert(s2[k] == s[k0]);
                    }
                    assert forall|p: BlockPos| #[trigger] blocks_map(s2).dom().contains(p) <==> blocks_map(s).remove(*pos).dom().contains(p) by {
                        if holds_pos(s, p) && p != *pos {
                            let j = choose|j: int| 0 <= j < s.len() && #[trigger] s[j].pos == p;
                            assert(j != i);
                            let j2 = if j < i { j } else { j - 1 };
                            assert(s2[j2].pos == p);
                        }
                        if holds_pos(s2, p) {
                            let j = choose|j: int| 0 <= j < s2.len() && #[trigger] s2[j].pos == p;
                            let j0 = if j < i { j } else { j + 1 };
                            assert(s[j0].pos == p);
                            assert(j0 != i);
                        }
                    }
                    assert forall|p: BlockPos| #[trigger] blocks_map(s2).dom().contains(p) implies blocks_map(s2)[p] == blocks_map(s).remove(*pos)[p] by {
                        let j = choose|j: int| 0 <= j < s2.len() && #[trigger] s2[j].pos == p;
                        lemma_blocks_map_at(s2, j);
                        let j0 = if j < i { j } else { j + 1 };
                        assert(s[j0] == s2[j]);
                        lemma_blocks_map_at(s, j0);
                    }
                    assert(blocks_map(s2) =~= blocks_map(s).remove(*pos));
                }
                self.blocks = blocks;
                Some(removed.kind)
            },
        }
    }
    /// The blocks of the world, each once, in no particular order.
    pub fn blocks(&self) -> (r: &Vec<Block>)
        ensures
            unique_positions(r@),
            forall|i: int|
                0 <= i < r@.len() ==> self@.dom().contains(#[trigger] r@[i].pos) && self@[r@[i].pos]
                    == r@[i].kind,
            forall|p: BlockPos| self@.dom().contains(p) ==> holds_pos(r@, p),
            forall|i: int| 0 <= i < r@.len() ==> (#[trigger] r@[i]).pos.is_interior(),
    {
        proof {
            use_type_invariant(self);
            lemma_sorted_unique(self.blocks@);
            assert forall|i: int| 0 <= i < self.blocks@.len() implies self@.dom().contains(
                #[trigger] self.blocks@[i].pos,
            ) && self@[self.blocks@[i].pos] == self.blocks@[i].kind by {
                lemma_blocks_map_at(self.blocks@, i);
            }
        }
        &self.blocks
    }

    /// Whether face `f` of the block at `pos` is open to the air.
    pub fn face_visible(&self, pos: &BlockPos, f: Faces) -> (r: bool)
        requires
            pos.can_add(f.dir()),
        ensures
            r == face_exposed(self@, *pos, f),
    {
        !self.contains_key(&pos.neighbor(f))
    }

    /// The quads to draw: the quad of every face of every block that no
    /// other block covers, each once, paired with its block's position.
    pub fn visible_quads(&self) -> (r: Vec<(BlockPos, BlockQuad)>)
        ensures
            forall|k: int| 0 <= k < r@.len() ==> is_visible_quad(self@, #[trigger] r@[k]),
            forall|p: BlockPos, f: Faces|
                self@.dom().contains(p) && face_exposed(self@, p, f) ==> r@.contains(
                    (p, spec_quad(self@[p], f)),
                ),
            r@.no_duplicates(),
    {
        proof {
            use_type_invariant(self);
            lemma_sorted_unique(self.blocks@);
        }
        let ghost m = self@;
        let ghost s = self.blocks@;
        let mut r: Vec<(BlockPos, BlockQuad)> = Vec::new();
        let mut i: usize = 0;
        while i < self.blocks.len()
            invariant
                m == self@,
                s == self.blocks@,
                unique_positions(s),
                forall|k: int| 0 <= k < s.len() ==> (#[trigger] s[k]).pos.is_interior(),
                i <= s.len(),
                forall|k: int| 0 <= k < r@.len() ==> is_visible_quad(m, #[trigger] r@[k]),
                forall|k: int| 0 <= k < r@.len() ==> pos_among(s, i as int, #[trigger] r@[k].0),
                forall|b: int, f: Faces|
                    0 <= b < i && face_exposed(m, s[b].pos, f) ==> r@.contains(
                        (s[b].pos, #[trigger] spec_quad(s[b].kind, f)),
                    ),
                r@.no_duplicates(),
            decreases s.len() - i,
        {
            let b = self.blocks[i];
            proof {
                lemma_blocks_map_at(s, i as int);
            }
            let ghost r_before = r@;
            let mut j: usize = 0;
            while j < 6
                invariant
                    m == self@,
                    s == self.blocks@,
                    unique_positions(s),
                    i < s.len(),
                    b == s[i as int],
                    b.pos.is_interior(),
                    m.dom().contains(b.pos),
                    m[b.pos] == b.kind,
                    j <= 6,
                    r_before.len() <= r@.len(),
                    forall|k: int| 0 <= k < r_before.len() ==> r@[k] == r_before[k],
                    forall|k: int| 0 <= k < r@.len() ==> is_visible_quad(m, #[trigger] r@[k]),
                    forall|k: int| 0 <= k < r_before.len() ==> pos_among(s, i as int, #[trigger] r_before[k].0),
                    forall|k: int| r_before.len() <= k < r@.len() ==> (#[trigger] r@[k]).0 == b.pos && face_index(r@[k].1.face) < j,
                    forall|bb: int, f: Faces|
                        0 <= bb < i && face_exposed(m, s[bb].pos, f) ==> r@.contains(
                            (s[bb].pos, #[trigger] spec_quad(s[bb].kind, f)),
                        ),
                    forall|f: Faces|
                        face_index(f) < j && face_exposed(m, b.pos, f) ==> r@.contains(
                            (b.pos, #[trigger] spec_quad(b.kind, f)),
                        ),
                    r@.no_duplicates(),
                decreases 6 - j,
            {
                let f = face_of_quad(j);
                proof {
                    lemma_face_index(f, j as int);
                }
                if self.face_visible(&b.pos, f) {
                    let e = (b.pos, face_quad(b.kind, f));
                    proof {
                        assert forall|k: int| 0 <= k < r@.len() implies r@[k] != e by {
                            if k < r_before.len() {
                                assert(pos_among(s, i as int, r_before[k].0));
                                let bb = choose|bb: int| 0 <= bb < i && #[trigger] s[bb].pos == r_before[k].0;
                                assert(s[bb].pos != s[i as int].pos);
                            } else {
                                assert(face_index(r@[k].1.face) < j);
                            }
                        }
                    }
                    let ghost r_old = r@;
                    r.push(e);
                    proof {
                        assert forall|bb: int, g: Faces|
                            0 <= bb < i && face_exposed(m, s[bb].pos, g) implies r@.contains(
                                (s[bb].pos, #[trigger] spec_quad(s[bb].kind, g)),
                            ) by {
                            let k = choose|k: int| 0 <= k < r_old.len() && r_old[k] == (s[bb].pos, spec_quad(s[bb].kind, g));
                            assert(r@[k] == r_old[k]);
                        }
                        assert forall|g: Faces|
                            face_index(g) < j + 1 && face_exposed(m, b.pos, g) implies r@.contains(
                                (b.pos, #[trigger] spec_quad(b.kind, g)),
                            ) by {
                            lemma_face_index(g, 0);
                            if face_index(g) == j {
                                assert(r@[r_old.len() as int] == e);
                            } else {
                                let k = choose|k: int| 0 <= k < r_old.len() && r_old[k] == (b.pos, spec_quad(b.kind, g));
                                assert(r@[k] == r_old[k]);
                            }
                        }
                        assert forall|a: int, c: int| 0 <= a < r@.len() && 0 <= c < r@.len() && a != c implies r@[a] != r@[c] by {
                            if a < r_old.len() && c < r_old.len() {
                                assert(r_old[a] != r_old[c]);
                            }
                        }
                    }
                } else {
                    proof {
                        assert forall|g: Faces|
                            face_index(g) < j + 1 && face_exposed(m, b.pos, g) implies r@.contains(
                                (b.pos, #[trigger] spec_quad(b.kind, g)),
                            ) by {
                            lemma_face_index(g, 0);
                        }
                    }
                }
                j = j + 1;
            }
            proof {
                assert forall|k: int| 0 <= k < r@.len() implies pos_among(s, i + 1, #[trigger] r@[k].0) by {
                    if k >= r_before.len() {
                        assert(s[i as int].pos == r@[k].0);
                    } else {
                        assert(pos_among(s, i as int, r_before[k].0));
                        let bb = choose|bb: int| 0 <= bb < i && #[trigger] s[bb].pos == r_before[k].0;
                        assert(s[bb].pos == r@[k].0);
                    }
                }
                assert forall|bb: int, g: Faces|
                    0 <= bb < i + 1 && face_exposed(m, s[bb].pos, g) implies r@.contains(
                        (s[bb].pos, #[trigger] spec_quad(s[bb].kind, g)),
                    ) by {
                    lemma_face_index(g, 0);
                }
            }
            i = i + 1;
        }
        proof {
            assert forall|p: BlockPos, f: Faces|
                m.dom().contains(p) && face_exposed(m, p, f) implies r@.contains(
                    (p, spec_quad(m[p], f)),
                ) by {
                let bb = choose|bb: int| 0 <= bb < s.len() && #[trigger] s[bb].pos == p;
                lemma_blocks_map_at(s, bb);
                assert(s[bb].pos == p);
            }
        }
        r
    }
    /// Puts a dirt block against the block at `target`, on the side that a
    /// clicked quad with normal `normal` faces: at `target - normal`,
    /// replacing whatever stood there.
    pub fn place_dirt_against(&mut self, target: &BlockPos, normal: Step)
        requires
            target.can_sub(normal),
            target.sub(normal).is_interior(),
        ensures
            final(self)@ == old(self)@.insert(target.sub(normal), BlockKind::Dirt),
    {
        let p = target.minus(normal);
        self.insert(Block::new_dirt_block(&p));
    }
}

/// Two touching blocks hide the faces they share: if blocks stand at `p`
/// and at its neighbour across face `f`, neither face `f` of `p` nor the
/// opposite face of the neighbour is drawn.
pub proof fn lemma_touching_faces_hidden(m: Map<BlockPos, BlockKind>, p: BlockPos, f: Faces)
    requires
        p.is_interior(),
        m.dom().contains(p),
        m.dom().contains(p.spec_neighbor(f)),
    ensures
        !face_exposed(m, p, f),
        !face_exposed(m, p.spec_neighbor(f), f.spec_opposite()),
{
    assert(p.spec_neighbor(f).spec_neighbor(f.spec_opposite()) == p);
}

/// Placing against a face covers it: the quad of face `f` has the normal
/// `-dir(f)`, so a block placed against that normal stands across face `f`
/// of `p`, after which face `f` of `p` is no longer drawn, and the placed
/// block's opposite face is not drawn either when `p` holds a block.
pub proof fn lemma_placing_covers_face(m: Map<BlockPos, BlockKind>, p: BlockPos, f: Faces)
    requires
        p.is_interior(),
    ensures
        p.can_sub(f.dir().neg()),
        p.sub(f.dir().neg()) == p.spec_neighbor(f),
        !face_exposed(m.insert(p.sub(f.dir().neg()), BlockKind::Dirt), p, f),
        m.dom().contains(p) ==> !face_exposed(
            m.insert(p.sub(f.dir().neg()), BlockKind::Dirt),
            p.spec_neighbor(f),
            f.spec_opposite(),
        ),
{
    assert(p.spec_neighbor(f).spec_neighbor(f.spec_opposite()) == p);
}

/// Removing a block opens the faces that touched it: after the block at
/// `q` is taken away, every face of a block at `p` that looks onto `q` is
/// drawn.
pub proof fn lemma_removing_exposes(m: Map<BlockPos, BlockKind>, p: BlockPos, f: Faces)
    ensures
        face_exposed(m.remove(p.spec_neighbor(f)), p, f),
{
}

} // verus!
