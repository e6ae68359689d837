use planet_surface::face::{face_grid, face_indices, CubeFace, FaceError, IVec3};

#[test]
fn resolution_two_gives_two_triangles() {
    let idx = face_indices(2).unwrap();
    assert_eq!(idx, vec![0, 2, 3, 0, 3, 1]);
    let grid = face_grid(2).unwrap();
    assert_eq!(grid, vec![(0, 0), (1, 0), (0, 1), (1, 1)]);
    for t in idx.chunks(3) {
        assert!(t[0] != t[1] && t[1] != t[2] && t[0] != t[2]);
    }
}

#[test]
fn resolution_four_face_counts() {
    let idx = face_indices(4).unwrap();
    assert_eq!(idx.len(), 54);
    assert!(idx.iter().all(|&i| i < 16));
    assert_eq!(&idx[0..6], &[0, 4, 5, 0, 5, 1]);
    assert_eq!(&idx[48..54], &[10, 14, 15, 10, 15, 11]);
    let grid = face_grid(4).unwrap();
    assert_eq!(grid.len(), 16);
    assert_eq!(grid[6], (2, 1));
}

#[test]
fn resolution_below_two_is_rejected() {
    assert_eq!(face_indices(1), Err(FaceError::ResolutionTooSmall));
    assert_eq!(face_indices(0), Err(FaceError::ResolutionTooSmall));
    assert_eq!(face_grid(1), Err(FaceError::ResolutionTooSmall));
}

#[test]
fn face_axes_are_rotated_normal_and_cross() {
    let z = CubeFace::PosZ;
    assert_eq!(z.normal(), IVec3 { x: 0, y: 0, z: 1 });
    assert_eq!(z.axes(), (IVec3 { x: 0, y: 1, z: 0 }, IVec3 { x: 1, y: 0, z: 0 }));
    let nx = CubeFace::NegX;
    assert_eq!(nx.axes(), (IVec3 { x: 0, y: 0, z: -1 }, IVec3 { x: 0, y: 1, z: 0 }));
    let py = CubeFace::PosY;
    assert_eq!(py.axes(), (IVec3 { x: 1, y: 0, z: 0 }, IVec3 { x: 0, y: 0, z: 1 }));
}

#[test]
fn face_set_must_cover_the_cube() {
    assert_eq!(face_set_check(vec![CubeFace::PosX, CubeFace::NegX, CubeFace::PosY, CubeFace::NegY, CubeFace::PosZ, CubeFace::NegZ]), Ok(()));
    assert_eq!(face_set_check(vec![CubeFace::NegZ, CubeFace::PosZ, CubeFace::NegY, CubeFace::PosY, CubeFace::NegX, CubeFace::PosX]), Ok(()));
    assert_eq!(face_set_check(vec![CubeFace::PosX, CubeFace::NegX, CubeFace::PosY, CubeFace::NegY, CubeFace::PosZ]), Err(FaceError::IncompleteFaceSet));
    assert_eq!(face_set_check(vec![CubeFace::PosX, CubeFace::NegX, CubeFace::PosY, CubeFace::NegY, CubeFace::PosZ, CubeFace::PosX]), Err(FaceError::IncompleteFaceSet));
    assert_eq!(face_set_check(Vec::new()), Err(FaceError::IncompleteFaceSet));
}

fn face_set_check(v: Vec<CubeFace>) -> Result<(), FaceError> {
    planet_surface::face::check_face_set(&v)
}
