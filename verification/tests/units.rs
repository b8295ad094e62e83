//! Unit tests of the building blocks: indexing, masks, the double buffers,
//! and the move catalog.

use liquid_chunk::chunk::liquid_tick::action::{action, action_at, down_action, none, some, Delta};
use liquid_chunk::chunk::masks::{Masks, PAD_MASK};
use liquid_chunk::chunk::{Chunk, Voxel};
use liquid_chunk::double_buffered::DoubleBuffered;
use liquid_chunk::index::{cell_index, i_2d, i_3d, x_and_i_2d, AREA, LEN, VOL};

#[test]
fn dimensions() {
    assert_eq!(LEN, 64);
    assert_eq!(AREA, 64 * 64);
    assert_eq!(VOL, 64 * 64 * 64);
    assert_eq!(PAD_MASK, (1u64 << 63) | 1);
}

#[test]
fn indexing_round_trips() {
    assert_eq!(i_3d(5, 6, 7), 5 + 6 * 64 + 7 * 4096);
    assert_eq!(i_2d(6, 7), 6 + 7 * 64);
    assert_eq!(x_and_i_2d(i_3d(5, 6, 7)), (5, i_2d(6, 7)));
    assert_eq!(cell_index(i_2d(6, 7), 5), i_3d(5, 6, 7));
    assert_eq!(x_and_i_2d(0), (0, 0));
    assert_eq!(x_and_i_2d(VOL - 1), (63, AREA - 1));
}

#[test]
fn delta_decomposition() {
    let d = Delta { dx: 1, dy: -1, dz: 1 };
    assert_eq!(d.i_3d(), 1 - 64 + 4096);
    assert_eq!(d.x_and_i_2d(), (1, -1 + 64));
    let down = Delta { dx: 0, dy: -1, dz: 0 };
    assert_eq!(down.i_3d(), -64);
    assert_eq!(down.x_and_i_2d(), (0, -1));
}

#[test]
fn catalog_shape() {
    let down = down_action();
    assert_eq!((down.delta.dx, down.delta.dy, down.delta.dz), (0, -1, 0));
    assert!(down.prereqs.is_empty());

    // tier one: a fall with one horizontal step, gated on that neighbor
    let a = action_at(0, 0);
    assert_eq!((a.delta.dx, a.delta.dy, a.delta.dz), (1, -1, 0));
    assert_eq!(a.prereqs.len(), 1);
    assert!(a.prereqs[0].not);
    assert_eq!((a.prereqs[0].delta.dx, a.prereqs[0].delta.dz), (1, 0));

    // tier two: the full diagonal needs three free neighbors
    let b = action_at(1, 3);
    assert_eq!((b.delta.dx, b.delta.dy, b.delta.dz), (-1, -1, -1));
    assert_eq!(b.prereqs.len(), 3);
    assert!(b.prereqs.iter().all(|p| p.not));

    // tier three: a lateral slide gated on support behind
    let c = action_at(2, 1);
    assert_eq!((c.delta.dx, c.delta.dy, c.delta.dz), (-1, 0, 0));
    assert_eq!(c.prereqs.len(), 1);
    assert!(!c.prereqs[0].not);
    assert_eq!(c.prereqs[0].delta.dx, 1);

    let p = none(0, 0, 1);
    assert!(p.not);
    let q = some(0, 0, -1);
    assert!(!q.not);
    let act = action(0, -1, 1, vec![none(0, 0, 1)]);
    assert_eq!((act.delta.dx, act.delta.dy, act.delta.dz), (0, -1, 1));
    assert_eq!(act.prereqs.len(), 1);
}

#[test]
fn masks_set_and_query() {
    let mut masks = Masks::default();
    assert!(!masks.is_some(3, 4, 5));
    masks.set(3, 4, 5, Some(Voxel::Liquid));
    assert!(masks.is_some(3, 4, 5));
    assert!(!masks.is_some(2, 4, 5));
    let word = i_2d(4, 5);
    assert_eq!(masks.some_mask()[word], 1u64 << 3);
    assert_eq!(masks.dblt_masks.front.liquid_mask[word], 1u64 << 3);
    assert_eq!(masks.dblt_masks.back.some_mask[word], 1u64 << 3);

    masks.set(3, 4, 5, Some(Voxel::Solid));
    assert!(masks.is_some(3, 4, 5));
    assert_eq!(masks.dblt_masks.front.liquid_mask[word], 0);

    masks.set(3, 4, 5, None);
    assert!(!masks.is_some(3, 4, 5));
    assert_eq!(masks.some_mask()[word], 0);
}

#[test]
fn masks_row_fills() {
    let mut masks = Masks::default();
    masks.fill_row(7, 9, Some(Voxel::Solid));
    let word = i_2d(7, 9);
    assert_eq!(masks.dblt_masks.front.some_mask[word], !0u64);
    assert_eq!(masks.dblt_masks.front.liquid_mask[word], 0);
    assert_eq!(masks.dblt_masks.back.some_mask[word], !0u64);

    masks.fill_row(7, 9, None);
    assert_eq!(masks.dblt_masks.front.some_mask[word], 0);

    masks.set(5, 8, 9, Some(Voxel::Liquid));
    masks.set_row_padding(8, 9, Some(Voxel::Solid));
    let word = i_2d(8, 9);
    assert_eq!(masks.dblt_masks.front.some_mask[word], PAD_MASK | (1u64 << 5));
    assert_eq!(masks.dblt_masks.front.liquid_mask[word], 1u64 << 5);
    masks.set_row_padding(8, 9, None);
    assert_eq!(masks.dblt_masks.front.some_mask[word], 1u64 << 5);
}

#[test]
fn double_buffered_roles() {
    let mut b = DoubleBuffered { first: 1u32, second: 2u32, swapped: false };
    assert_eq!(*b.front(), 1);
    b.swap();
    assert_eq!(*b.front(), 2);
    *b.front_mut() = 20;
    assert_eq!(*b.front(), 20);
    assert_eq!(b.first, 1);
    b.swap();
    assert_eq!(*b.front(), 1);
    let (front, back) = b.buffers_mut();
    assert_eq!((*front, *back), (1, 20));
    *back = 40;
    assert_eq!(b.second, 40);
}

#[test]
fn copy_back_to_front_publishes_the_back_buffer() {
    let mut chunk = Chunk::default();
    chunk.set(10, 11, 12, Some(Voxel::Liquid));
    // diverge the buffers through a tick, then publish
    chunk.fill_padding(Some(Voxel::Solid));
    chunk.liquid_tick(0);
    let word = i_2d(10, 12);
    assert_ne!(
        chunk.masks.dblt_masks.front.liquid_mask[word],
        chunk.masks.dblt_masks.back.liquid_mask[word],
        "the tick wrote only the back buffer"
    );
    chunk.masks.dblt_masks.copy_back_to_front();
    assert_eq!(
        chunk.masks.dblt_masks.front.liquid_mask,
        chunk.masks.dblt_masks.back.liquid_mask
    );
    assert_eq!(
        chunk.masks.dblt_masks.front.some_mask,
        chunk.masks.dblt_masks.back.some_mask
    );
}

#[test]
fn chunk_set_updates_store_and_masks() {
    let mut chunk = Chunk::default();
    chunk.set(1, 2, 3, Some(Voxel::Liquid));
    assert_eq!(chunk.voxels[i_3d(1, 2, 3)], Some(Voxel::Liquid));
    assert_eq!(chunk.voxel_at(1, 2, 3), Some(Voxel::Liquid));
    assert_eq!(chunk.voxel_at(2, 2, 3), None);
    assert!(chunk.masks.is_some(1, 2, 3));
    chunk.set(1, 2, 3, None);
    assert_eq!(chunk.voxels[i_3d(1, 2, 3)], None);
    assert_eq!(chunk.voxel_at(1, 2, 3), None);
    assert!(!chunk.masks.is_some(1, 2, 3));
}

#[test]
fn fill_padding_covers_exactly_the_shell() {
    let mut chunk = Chunk::default();
    chunk.set(32, 32, 32, Some(Voxel::Liquid));
    chunk.fill_padding(Some(Voxel::Solid));
    for z in 0..LEN {
        for y in 0..LEN {
            for x in 0..LEN {
                let v = chunk.voxels[i_3d(x, y, z)];
                let border = x == 0 || x == 63 || y == 0 || y == 63 || z == 0 || z == 63;
                if border {
                    assert_eq!(v, Some(Voxel::Solid));
                    assert!(chunk.masks.is_some(x, y, z));
                } else if (x, y, z) == (32, 32, 32) {
                    assert_eq!(v, Some(Voxel::Liquid));
                } else {
                    assert_eq!(v, None);
                    assert!(!chunk.masks.is_some(x, y, z));
                }
            }
        }
    }
}
