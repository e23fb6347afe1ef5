use minceraft::block::{face_quad, Block, BlockKind, BlockPos, BlockQuad};
use minceraft::faces::{Faces, Step};
use minceraft::world::World;

fn pos(x: i64, y: i64, z: i64) -> BlockPos {
    BlockPos { x, y, z }
}

const ALL_FACES: [Faces; 6] = [Faces::Front, Faces::Back, Faces::Left, Faces::Right, Faces::Up, Faces::Down];

#[test]
fn new_world_is_empty() {
    let w = World::new();
    assert!(w.blocks().is_empty());
    assert_eq!(w.get(&pos(0, 0, 0)), None);
    assert!(!w.contains_key(&pos(0, 0, 0)));
    assert!(w.visible_quads().is_empty());
}

#[test]
fn read_after_insert() {
    let mut w = World::new();
    assert_eq!(w.insert(Block::new_grass_block(&pos(1, 2, 3))), None);
    assert_eq!(w.get(&pos(1, 2, 3)), Some(BlockKind::Grass));
    assert_eq!(w.get(&pos(1, 2, 4)), None);
    assert!(w.contains_key(&pos(1, 2, 3)));
}

#[test]
fn insert_replaces_and_reports_previous() {
    let mut w = World::new();
    w.insert(Block::new_grass_block(&pos(0, 0, 0)));
    assert_eq!(w.insert(Block::new_dirt_block(&pos(0, 0, 0))), Some(BlockKind::Grass));
    assert_eq!(w.get(&pos(0, 0, 0)), Some(BlockKind::Dirt));
    assert_eq!(w.blocks().len(), 1);
}

#[test]
fn remove_takes_block_out() {
    let mut w = World::new();
    w.insert(Block::new_grass_block(&pos(0, 0, 0)));
    w.insert(Block::new_dirt_block(&pos(5, 0, 0)));
    assert_eq!(w.remove(&pos(0, 0, 0)), Some(BlockKind::Grass));
    assert_eq!(w.get(&pos(0, 0, 0)), None);
    assert_eq!(w.get(&pos(5, 0, 0)), Some(BlockKind::Dirt));
    assert_eq!(w.remove(&pos(0, 0, 0)), None);
    assert_eq!(w.blocks().len(), 1);
}

#[test]
fn terrain_has_three_layers_over_twenty_by_twenty() {
    let w = World::generate_terrain();
    assert_eq!(w.blocks().len(), 1200);
    for x in -10..10 {
        for z in -10..10 {
            assert_eq!(w.get(&pos(x, 3, z)), Some(BlockKind::Grass));
            assert_eq!(w.get(&pos(x, 2, z)), Some(BlockKind::Dirt));
            assert_eq!(w.get(&pos(x, 1, z)), Some(BlockKind::Dirt));
            assert_eq!(w.get(&pos(x, 0, z)), None);
            assert_eq!(w.get(&pos(x, 4, z)), None);
        }
    }
    assert_eq!(w.get(&pos(10, 3, 0)), None);
    assert_eq!(w.get(&pos(0, 3, 10)), None);
    assert_eq!(w.get(&pos(-11, 3, 0)), None);
}

#[test]
fn terrain_shows_only_its_outer_faces() {
    let w = World::generate_terrain();
    let quads = w.visible_quads();
    // 400 tops, 400 bottoms, and 4 sides of 20 columns 3 blocks high.
    assert_eq!(quads.len(), 400 + 400 + 4 * 20 * 3);
    let count = |f: Faces| quads.iter().filter(|(_, q)| q.face == f).count();
    assert_eq!(count(Faces::Up), 400);
    assert_eq!(count(Faces::Down), 400);
    assert_eq!(count(Faces::Left), 60);
    assert_eq!(count(Faces::Right), 60);
    assert_eq!(count(Faces::Front), 60);
    assert_eq!(count(Faces::Back), 60);
    // grass tops, dirt bottoms, grass sides on the top layer only
    assert_eq!(quads.iter().filter(|(_, q)| q.texture == 2).count(), 400);
    assert_eq!(quads.iter().filter(|(_, q)| q.texture == 1).count(), 80);
    assert_eq!(quads.iter().filter(|(_, q)| q.texture == 0).count(), 400 + 160);
    for (p, q) in &quads {
        assert!(w.face_visible(p, q.face));
        assert_eq!(*q, face_quad(w.get(p).unwrap(), q.face));
    }
    for i in 0..quads.len() {
        for j in (i + 1)..quads.len() {
            assert_ne!(quads[i], quads[j]);
        }
    }
}

#[test]
fn lone_block_shows_all_six_faces() {
    let mut w = World::new();
    w.insert(Block::new_grass_block(&pos(7, -3, 2)));
    let quads = w.visible_quads();
    assert_eq!(quads.len(), 6);
    for f in ALL_FACES {
        let expected: (BlockPos, BlockQuad) = (pos(7, -3, 2), face_quad(BlockKind::Grass, f));
        assert!(quads.contains(&expected));
    }
}

#[test]
fn touching_blocks_hide_shared_faces() {
    let mut w = World::new();
    w.insert(Block::new_dirt_block(&pos(0, 0, 0)));
    w.insert(Block::new_dirt_block(&pos(1, 0, 0)));
    assert!(!w.face_visible(&pos(0, 0, 0), Faces::Right));
    assert!(!w.face_visible(&pos(1, 0, 0), Faces::Left));
    assert!(w.face_visible(&pos(0, 0, 0), Faces::Left));
    assert_eq!(w.visible_quads().len(), 10);
}

#[test]
fn placing_against_a_face_fills_the_neighbour() {
    let mut w = World::generate_terrain();
    // the quad of the top face has normal (0, -1, 0)
    assert!(w.face_visible(&pos(0, 3, 0), Faces::Up));
    w.place_dirt_against(&pos(0, 3, 0), Step { x: 0, y: -1, z: 0 });
    assert_eq!(w.get(&pos(0, 4, 0)), Some(BlockKind::Dirt));
    assert!(!w.face_visible(&pos(0, 3, 0), Faces::Up));
    assert!(!w.face_visible(&pos(0, 4, 0), Faces::Down));
    assert_eq!(w.blocks().len(), 1201);
    // against the side of the edge column: normal of the Right quad is (-1, 0, 0)
    w.place_dirt_against(&pos(9, 2, 5), Step { x: -1, y: 0, z: 0 });
    assert_eq!(w.get(&pos(10, 2, 5)), Some(BlockKind::Dirt));
}

#[test]
fn removing_a_block_opens_its_neighbours() {
    let mut w = World::generate_terrain();
    assert!(!w.face_visible(&pos(0, 2, 0), Faces::Up));
    w.remove(&pos(0, 3, 0));
    assert!(w.face_visible(&pos(0, 2, 0), Faces::Up));
    assert!(w.face_visible(&pos(1, 3, 0), Faces::Left));
    assert!(w.face_visible(&pos(-1, 3, 0), Faces::Right));
    assert!(w.face_visible(&pos(0, 3, 1), Faces::Back));
    assert!(w.face_visible(&pos(0, 3, -1), Faces::Front));
    // one top gone, one dirt top and four grass sides revealed
    assert_eq!(w.visible_quads().len(), 1040 - 1 + 1 + 4);
}
