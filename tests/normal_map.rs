use planet_surface::normal_map::{
    assemble_normal_map, blank_normal_map, neighbor_field, neighbor_heights, Neighbors,
};

fn map_of(reds: &[u8]) -> Vec<u8> {
    let mut d = Vec::new();
    for &r in reds {
        d.extend_from_slice(&[r, 0, 0, 255]);
    }
    d
}

#[test]
fn neighbors_wrap_east_west_and_clamp_north_south() {
    // 3 x 2 map
    let d = map_of(&[1, 2, 3, 4, 5, 6]);
    let n = neighbor_heights(&d, 3, 2, 0, 0);
    assert_eq!(n, Neighbors { north: 4, south: 1, east: 2, west: 3 });
    let n = neighbor_heights(&d, 3, 2, 2, 1);
    assert_eq!(n, Neighbors { north: 6, south: 3, east: 4, west: 5 });
}

#[test]
fn neighbor_field_is_row_major() {
    let d = map_of(&[1, 2, 3, 4, 5, 6]);
    let f = neighbor_field(&d, 3, 2);
    assert_eq!(f.len(), 6);
    for y in 0..2 {
        for x in 0..3 {
            assert_eq!(f[y * 3 + x], neighbor_heights(&d, 3, 2, x, y));
        }
    }
}

#[test]
fn flat_map_has_level_neighbors() {
    let d = map_of(&[77; 12]);
    for n in neighbor_field(&d, 4, 3) {
        assert_eq!(n, Neighbors { north: 77, south: 77, east: 77, west: 77 });
    }
}

#[test]
fn assembled_map_has_full_alpha() {
    let out = assemble_normal_map(&vec![10, 20, 30, 40, 50, 60]);
    assert_eq!(out, vec![10, 20, 30, 255, 40, 50, 60, 255]);
    assert!(assemble_normal_map(&Vec::new()).is_empty());
}

#[test]
fn blank_map_is_all_zero() {
    let out = blank_normal_map(3, 2);
    assert_eq!(out.len(), 24);
    assert!(out.iter().all(|&b| b == 0));
}
