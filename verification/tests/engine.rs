//! End-to-end tests of the diffusion engine: the scenarios and the global
//! guarantees checked on concrete runs.

use liquid_chunk::chunk::{Chunk, Voxel};
use liquid_chunk::index::{LEN, VOL};

/// A chunk with a solid border shell and an empty interior.
fn bordered_chunk() -> Chunk {
    let mut chunk = Chunk::default();
    chunk.fill_padding(Some(Voxel::Solid));
    chunk
}

/// One full simulation step: diffuse, then publish the back buffer.
fn step(chunk: &mut Chunk, tick: u64) -> Vec<(usize, usize)> {
    let moves = chunk.liquid_tick(tick);
    chunk.masks.dblt_masks.copy_back_to_front();
    moves
}

fn linear(x: usize, y: usize, z: usize) -> usize {
    x + y * 64 + z * 4096
}

fn count_liquid(chunk: &Chunk) -> usize {
    chunk
        .voxels
        .iter()
        .filter(|v| **v == Some(Voxel::Liquid))
        .count()
}

fn liquid_cells(chunk: &Chunk) -> Vec<(usize, usize, usize)> {
    let mut cells = Vec::new();
    for z in 0..LEN {
        for y in 0..LEN {
            for x in 0..LEN {
                if chunk.voxels[linear(x, y, z)] == Some(Voxel::Liquid) {
                    cells.push((x, y, z));
                }
            }
        }
    }
    cells
}

/// Both front mask planes agree with the voxel store, cell by cell.
fn assert_masks_match_store(chunk: &Chunk) {
    for z in 0..LEN {
        for y in 0..LEN {
            let word = y + z * 64;
            let some = chunk.masks.dblt_masks.front.some_mask[word];
            let liquid = chunk.masks.dblt_masks.front.liquid_mask[word];
            for x in 0..LEN {
                let v = chunk.voxels[linear(x, y, z)];
                assert_eq!(some & (1u64 << x) != 0, v.is_some(), "some bit at {x} {y} {z}");
                assert_eq!(
                    liquid & (1u64 << x) != 0,
                    v == Some(Voxel::Liquid),
                    "liquid bit at {x} {y} {z}"
                );
            }
        }
    }
}

fn is_border(x: usize, y: usize, z: usize) -> bool {
    x == 0 || x == 63 || y == 0 || y == 63 || z == 0 || z == 63
}

#[test]
fn single_drop_falls_to_the_floor() {
    let mut chunk = bordered_chunk();
    chunk.set(32, 10, 32, Some(Voxel::Liquid));

    let mut height = 10;
    for tick in 0..15u64 {
        step(&mut chunk, tick);
        let cells = liquid_cells(&chunk);
        assert_eq!(cells.len(), 1);
        let (x, y, z) = cells[0];
        assert_eq!((x, z), (32, 32), "the drop stays in its column");
        let expected = if height > 1 { height - 1 } else { 1 };
        assert_eq!(y, expected, "the drop sinks one cell per tick, then rests");
        height = y;
    }
    assert_eq!(height, 1);
}

#[test]
fn single_drop_keeps_masks_consistent() {
    let mut chunk = bordered_chunk();
    chunk.set(32, 10, 32, Some(Voxel::Liquid));
    for tick in 0..12u64 {
        step(&mut chunk, tick);
        assert_masks_match_store(&chunk);
    }
}

#[test]
fn lateral_spread_in_a_trench() {
    let mut chunk = bordered_chunk();
    // a solid floor one cell above the border, with a three-cell trench
    for z in 1..63 {
        for x in 1..63 {
            chunk.set(x, 1, z, Some(Voxel::Solid));
        }
    }
    chunk.set(31, 1, 32, None);
    chunk.set(32, 1, 32, None);
    chunk.set(33, 1, 32, None);
    // a stack of three liquid cells over the trench's center
    chunk.set(32, 3, 32, Some(Voxel::Liquid));
    chunk.set(32, 4, 32, Some(Voxel::Liquid));
    chunk.set(32, 5, 32, Some(Voxel::Liquid));
    assert_eq!(count_liquid(&chunk), 3);

    for tick in 0..20u64 {
        step(&mut chunk, tick);
        assert_eq!(count_liquid(&chunk), 3, "diffusion only relocates liquid");
    }
    let cells = liquid_cells(&chunk);
    assert_eq!(
        cells,
        vec![(31, 1, 32), (32, 1, 32), (33, 1, 32)],
        "the stack spreads out along the trench instead of staying stacked"
    );
}

#[test]
fn symmetric_collision_is_resolved_for_exactly_one() {
    let build = || {
        let mut chunk = bordered_chunk();
        // a solid floor with a single gap, and two drops that can each
        // only fall diagonally into that gap
        for z in 1..63 {
            for x in 1..63 {
                chunk.set(x, 1, z, Some(Voxel::Solid));
            }
        }
        chunk.set(32, 1, 32, None);
        chunk.set(31, 2, 32, Some(Voxel::Liquid));
        chunk.set(33, 2, 32, Some(Voxel::Liquid));
        chunk
    };

    let mut first = build();
    step(&mut first, 7);
    let cells = liquid_cells(&first);
    assert_eq!(count_liquid(&first), 2);
    assert!(cells.contains(&(32, 1, 32)), "one drop wins the gap");
    let stayed: Vec<_> = cells.iter().filter(|c| **c != (32, 1, 32)).collect();
    assert_eq!(stayed.len(), 1);
    assert!(
        *stayed[0] == (31, 2, 32) || *stayed[0] == (33, 2, 32),
        "the other drop remains on one of the two starting cells"
    );

    // the same grid and the same tick counter reproduce the same outcome
    let mut second = build();
    step(&mut second, 7);
    assert_eq!(liquid_cells(&second), cells);
}

#[test]
fn conservation_over_a_falling_blob() {
    let mut chunk = bordered_chunk();
    for z in 28..33 {
        for y in 20..25 {
            for x in 28..33 {
                chunk.set(x, y, z, Some(Voxel::Liquid));
            }
        }
    }
    let total = count_liquid(&chunk);
    assert_eq!(total, 125);
    for tick in 0..30u64 {
        step(&mut chunk, tick);
        assert_eq!(count_liquid(&chunk), total);
        assert_masks_match_store(&chunk);
    }
}

#[test]
fn border_stays_solid() {
    let mut chunk = bordered_chunk();
    for z in 28..33 {
        for y in 2..7 {
            for x in 28..33 {
                chunk.set(x, y, z, Some(Voxel::Liquid));
            }
        }
    }
    for tick in 0..10u64 {
        step(&mut chunk, tick);
        for z in 0..LEN {
            for y in 0..LEN {
                for x in 0..LEN {
                    if is_border(x, y, z) {
                        assert_eq!(chunk.voxels[linear(x, y, z)], Some(Voxel::Solid));
                        assert!(chunk.masks.is_some(x, y, z));
                    }
                }
            }
        }
    }
}

#[test]
fn identical_runs_are_bit_identical() {
    let build = || {
        let mut chunk = bordered_chunk();
        for z in 20..40 {
            for x in 20..40 {
                if (x + z) % 3 == 0 {
                    chunk.set(x, 30, z, Some(Voxel::Liquid));
                }
            }
        }
        chunk
    };
    let mut a = build();
    let mut b = build();
    for tick in 0..12u64 {
        let moves_a = step(&mut a, tick);
        let moves_b = step(&mut b, tick);
        assert_eq!(moves_a, moves_b);
    }
    assert_eq!(a.voxels, b.voxels);
    assert_eq!(
        a.masks.dblt_masks.front.some_mask,
        b.masks.dblt_masks.front.some_mask
    );
    assert_eq!(
        a.masks.dblt_masks.front.liquid_mask,
        b.masks.dblt_masks.front.liquid_mask
    );
    assert_eq!(
        a.masks.dblt_masks.back.some_mask,
        b.masks.dblt_masks.back.some_mask
    );
    assert_eq!(
        a.masks.dblt_masks.back.liquid_mask,
        b.masks.dblt_masks.back.liquid_mask
    );
}

#[test]
fn moves_report_unique_sources_and_destinations() {
    let mut chunk = bordered_chunk();
    for z in 28..36 {
        for y in 10..14 {
            for x in 28..36 {
                chunk.set(x, y, z, Some(Voxel::Liquid));
            }
        }
    }
    let before = chunk.voxels.clone();
    let moves = step(&mut chunk, 3);
    assert!(!moves.is_empty());
    for (i, (dst, src)) in moves.iter().enumerate() {
        assert!(*dst < VOL && *src < VOL && dst != src);
        assert_eq!(before[*src], Some(Voxel::Liquid), "sources were liquid");
        assert_eq!(before[*dst], None, "destinations were empty");
        for (j, (dst2, src2)) in moves.iter().enumerate() {
            if i != j {
                assert_ne!(dst, dst2, "no destination is claimed twice");
                assert_ne!(src, src2, "no source feeds two destinations");
            }
        }
    }
}
