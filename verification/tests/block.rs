use minceraft::block::{face_of_quad, face_quad, Block, BlockKind, BlockPos, TEXTURE_DIRT, TEXTURE_GRASS_SIDE, TEXTURE_GRASS_TOP};
use minceraft::faces::{Faces, Step};

const ALL_FACES: [Faces; 6] = [Faces::Front, Faces::Back, Faces::Left, Faces::Right, Faces::Up, Faces::Down];

fn cross(a: Step, b: Step) -> (i64, i64, i64) {
    let (ax, ay, az) = (a.x as i64, a.y as i64, a.z as i64);
    let (bx, by, bz) = (b.x as i64, b.y as i64, b.z as i64);
    (ay * bz - az * by, az * bx - ax * bz, ax * by - ay * bx)
}

#[test]
fn constructors_keep_kind_and_position() {
    let p = BlockPos { x: -4, y: 9, z: 12 };
    let g = Block::new_grass_block(&p);
    let d = Block::new_dirt_block(&p);
    assert_eq!(g.kind, BlockKind::Grass);
    assert_eq!(d.kind, BlockKind::Dirt);
    assert_eq!(g.get_pos(), p);
    assert_eq!(d.get_pos(), p);
}

#[test]
fn grass_block_quads_in_drawing_order() {
    let b = Block::new_grass_block(&BlockPos { x: 0, y: 3, z: 0 });
    let quads = b.get_renderables();
    let faces: Vec<Faces> = quads.iter().map(|q| q.face).collect();
    assert_eq!(faces, vec![Faces::Back, Faces::Right, Faces::Left, Faces::Front, Faces::Up, Faces::Down]);
    let textures: Vec<u32> = quads.iter().map(|q| q.texture).collect();
    assert_eq!(textures, vec![1, 1, 1, 1, 2, 0]);
    assert_eq!(quads[0].corner, Step { x: -1, y: -1, z: -1 });
    assert_eq!(quads[0].u, Step { x: 1, y: 0, z: 0 });
    assert_eq!(quads[0].v, Step { x: 0, y: 1, z: 0 });
    assert_eq!(quads[4].corner, Step { x: -1, y: 1, z: -1 });
    assert_eq!(quads[4].v, Step { x: 0, y: 0, z: 1 });
}

#[test]
fn dirt_block_is_dirt_all_round() {
    let b = Block::new_dirt_block(&BlockPos { x: 0, y: 1, z: 0 });
    for q in b.get_renderables() {
        assert_eq!(q.texture, TEXTURE_DIRT);
    }
}

#[test]
fn texture_indices() {
    assert_eq!((TEXTURE_DIRT, TEXTURE_GRASS_SIDE, TEXTURE_GRASS_TOP), (0, 1, 2));
    assert_eq!(face_quad(BlockKind::Grass, Faces::Up).texture, TEXTURE_GRASS_TOP);
    assert_eq!(face_quad(BlockKind::Grass, Faces::Down).texture, TEXTURE_DIRT);
    assert_eq!(face_quad(BlockKind::Grass, Faces::Left).texture, TEXTURE_GRASS_SIDE);
}

#[test]
fn quads_sit_on_their_faces_and_face_inward() {
    for f in ALL_FACES {
        let q = face_quad(BlockKind::Dirt, f);
        let d = f.direction();
        // the centre, corner + (u + v) / 2, is half a block out along the face
        assert_eq!(q.corner.x + q.u.x + q.v.x, d.x);
        assert_eq!(q.corner.y + q.u.y + q.v.y, d.y);
        assert_eq!(q.corner.z + q.u.z + q.v.z, d.z);
        assert_eq!(cross(q.u, q.v), (-(d.x as i64), -(d.y as i64), -(d.z as i64)));
    }
}

#[test]
fn face_directions_and_opposites() {
    assert_eq!(Faces::Front.direction(), Step { x: 0, y: 0, z: 1 });
    assert_eq!(Faces::Right.direction(), Step { x: 1, y: 0, z: 0 });
    assert_eq!(Faces::Down.direction(), Step { x: 0, y: -1, z: 0 });
    for f in ALL_FACES {
        let o = f.opposite();
        assert_ne!(o, f);
        assert_eq!(o.opposite(), f);
        let (d, e) = (f.direction(), o.direction());
        assert_eq!((d.x + e.x, d.y + e.y, d.z + e.z), (0, 0, 0));
    }
}

#[test]
fn every_face_drawn_once() {
    let mut seen: Vec<Faces> = (0..6).map(face_of_quad).collect();
    assert_eq!(seen.len(), 6);
    for f in ALL_FACES {
        assert_eq!(seen.iter().filter(|g| **g == f).count(), 1);
    }
    seen.dedup();
    assert_eq!(seen.len(), 6);
}

#[test]
fn neighbours_and_differences() {
    let p = BlockPos { x: 3, y: 4, z: 5 };
    assert_eq!(p.neighbor(Faces::Up), BlockPos { x: 3, y: 5, z: 5 });
    assert_eq!(p.neighbor(Faces::Back), BlockPos { x: 3, y: 4, z: 4 });
    assert_eq!(p.minus(Step { x: 1, y: -1, z: 0 }), BlockPos { x: 2, y: 5, z: 5 });
}

#[test]
fn block_intersects_misses_box() {
    let b = Block::new_dirt_block(&BlockPos { x: 0, y: 0, z: 0 });
    let hits = vec![Some(1), None, None, None, None, None];
    assert_eq!(b.intersects(false, &hits), None);
}

#[test]
fn block_intersects_takes_nearest_quad() {
    let b = Block::new_dirt_block(&BlockPos { x: 0, y: 0, z: 0 });
    let hits = vec![None, Some(7), Some(3), None, Some(3), None];
    assert_eq!(b.intersects(true, &hits), Some((3, Faces::Left)));
    let none = vec![None; 6];
    assert_eq!(b.intersects(true, &none), None);
    let last = vec![None, None, None, None, None, Some(0)];
    assert_eq!(b.intersects(true, &last), Some((0, Faces::Down)));
}
