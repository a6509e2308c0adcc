use voxel_map_editor::grid::{Dimensions, GridMap, MapBuilder, Tile};

#[test]
fn builder_defaults_to_zero() {
    let b: MapBuilder = Default::default();
    assert_eq!(b.width, 0);
    assert_eq!(b.length, 0);
    assert_eq!(b.height, 0);
    let b2 = GridMap::builder();
    assert_eq!(b2.width, 0);
    assert_eq!(b2.length, 0);
    assert_eq!(b2.height, 0);
}

#[test]
fn builder_setters_keep_other_fields() {
    let b = GridMap::builder().width(4).length(3).height(2);
    assert_eq!(b.width, 4);
    assert_eq!(b.length, 3);
    assert_eq!(b.height, 2);
}

#[test]
fn build_counts_tiles() {
    let m = GridMap::builder().width(4).length(3).height(2).build();
    assert_eq!(m.nodes.len(), 24);
    assert_eq!(m.dimensions, Dimensions { width: 4, length: 3, height: 2 });
}

#[test]
fn build_zero_dimension_is_empty() {
    assert_eq!(GridMap::builder().width(0).length(5).height(5).build().nodes.len(), 0);
    assert_eq!(GridMap::builder().width(5).length(0).height(5).build().nodes.len(), 0);
    assert_eq!(GridMap::builder().width(5).length(5).height(0).build().nodes.len(), 0);
    assert_eq!(GridMap::builder().build().nodes.len(), 0);
}

#[test]
fn build_orders_height_major_length_mid_width_minor() {
    let w = 4u32;
    let l = 3u32;
    let h = 2u32;
    let m = GridMap::builder().width(w).length(l).height(h).build();
    let mut k = 0usize;
    for z in 0..h as i64 {
        for y in 0..l as i64 {
            for x in 0..w as i64 {
                let t = m.nodes[k];
                assert_eq!(t.x_half, 2 * x - w as i64);
                assert_eq!(t.y_half, 2 * y - w as i64);
                assert_eq!(t.z_half, 2 * z);
                k += 1;
            }
        }
    }
    assert_eq!(k, m.nodes.len());
}

#[test]
fn build_centres_both_axes_by_width() {
    // A 4 by 3 by 2 grid: the first tile sits at (0 - 4/2, 0 - 4/2, 0) and
    // the last at (3 - 4/2, 2 - 4/2, 1); the y axis is centred by the width
    // extent, not the length extent.
    let m = GridMap::builder().width(4).length(3).height(2).build();
    let first = m.nodes[0];
    assert_eq!(first.x_half as f32 / 2.0, -2.0);
    assert_eq!(first.y_half as f32 / 2.0, -2.0);
    assert_eq!(first.z_half as f32 / 2.0, 0.0);
    let last = m.nodes[23];
    assert_eq!(last.x_half as f32 / 2.0, 1.0);
    assert_eq!(last.y_half as f32 / 2.0, 0.0);
    assert_eq!(last.z_half as f32 / 2.0, 1.0);
}

#[test]
fn build_odd_width_gives_half_unit_centre() {
    let m = GridMap::builder().width(3).length(1).height(1).build();
    assert_eq!(m.nodes.len(), 3);
    assert_eq!(m.nodes[0].x_half as f32 / 2.0, -1.5);
    assert_eq!(m.nodes[1].x_half as f32 / 2.0, -0.5);
    assert_eq!(m.nodes[2].x_half as f32 / 2.0, 0.5);
}

#[test]
fn magnitude_is_the_tile_count() {
    let d = Dimensions { width: 4, length: 3, height: 2 };
    assert_eq!(d.magnitude(), 24);
    let empty = Dimensions { width: 0, length: 7, height: 9 };
    assert_eq!(empty.magnitude(), 0);
    let one = Dimensions { width: 1, length: 1, height: 1 };
    assert_eq!(one.magnitude(), 1);
}

#[test]
fn tile_new_stores_coordinates() {
    let t = Tile::new(-4, 0, 2);
    assert_eq!(t, Tile { x_half: -4, y_half: 0, z_half: 2 });
}
