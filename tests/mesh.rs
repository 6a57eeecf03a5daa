use arm_vis::mesh::{flatten_faces, MeshError, MeshGeometry};

fn square() -> (Vec<[i64; 3]>, Vec<[usize; 3]>) {
    (
        vec![[0, 0, 0], [1, 0, 0], [1, 1, 0], [0, 1, 0]],
        vec![[0, 1, 2], [0, 2, 3]],
    )
}

#[test]
fn flatten_faces_keeps_order() {
    let (_, faces) = square();
    assert_eq!(flatten_faces(&faces, 4), Ok(vec![0u16, 1, 2, 0, 2, 3]));
    assert_eq!(flatten_faces(&vec![], 0), Ok(vec![]));
}

#[test]
fn flatten_faces_rejects_missing_vertex() {
    let faces = vec![[0, 1, 2], [2, 4, 1], [9, 9, 9]];
    assert_eq!(
        flatten_faces(&faces, 4),
        Err(MeshError::VertexOutOfRange { face: 1, vertex: 4 })
    );
}

#[test]
fn flatten_faces_rejects_wide_index() {
    let faces = vec![[0, 65535, 65536]];
    assert_eq!(
        flatten_faces(&faces, 70000),
        Err(MeshError::IndexTooWide { face: 0, vertex: 65536 })
    );
    assert_eq!(flatten_faces(&vec![[0, 65535, 1]], 70000), Ok(vec![0u16, 65535, 1]));
}

#[test]
fn new_mesh_starts_at_rest_and_dirty() {
    let (v, f) = square();
    let mut m: MeshGeometry<[i64; 3], u8> = MeshGeometry::new(v.clone(), &f, 7).unwrap();
    assert_eq!(m.rest_vertices(), &v);
    assert_eq!(m.working_vertices(), &v);
    assert_eq!(m.index_buffer(), &vec![0u16, 1, 2, 0, 2, 3]);
    assert_eq!(m.color_value(), 7);
    assert!(m.is_dirty());
    m.mark_clean();
    assert!(!m.is_dirty());
    m.set_color(9);
    assert_eq!(m.color_value(), 9);
    assert!(m.is_dirty());
}

#[test]
fn new_mesh_rejects_bad_triangle() {
    let (v, _) = square();
    let r: Result<MeshGeometry<[i64; 3], u8>, MeshError> = MeshGeometry::new(v, &vec![[0, 1, 5]], 0);
    assert_eq!(r.err(), Some(MeshError::VertexOutOfRange { face: 0, vertex: 5 }));
}

#[test]
fn translate_moves_working_copy_only() {
    let (v, f) = square();
    let mut m: MeshGeometry<[i64; 3], u8> = MeshGeometry::new(v.clone(), &f, 0).unwrap();
    m.mark_clean();
    m.translate(|p: [i64; 3]| [p[0] + 2, p[1] - 3, p[2] + 5]);
    assert_eq!(
        m.working_vertices(),
        &vec![[2, -3, 5], [3, -3, 5], [3, -2, 5], [2, -2, 5]]
    );
    assert_eq!(m.rest_vertices(), &v);
    assert!(m.is_dirty());
}

#[test]
fn translate_then_inverse_restores_working_copy() {
    let (v, f) = square();
    let mut m: MeshGeometry<[i64; 3], u8> = MeshGeometry::new(v, &f, 0).unwrap();
    m.translate(|p: [i64; 3]| [p[0] + 1, p[1] + 1, p[2] + 1]);
    let before = m.working_vertices().clone();
    m.translate(|p: [i64; 3]| [p[0] + 4, p[1] - 6, p[2] + 8]);
    m.translate(|p: [i64; 3]| [p[0] - 4, p[1] + 6, p[2] - 8]);
    assert_eq!(m.working_vertices(), &before);
}

#[test]
fn rotate_starts_from_rest_copy() {
    let (v, f) = square();
    let mut m: MeshGeometry<[i64; 3], u8> = MeshGeometry::new(v.clone(), &f, 0).unwrap();
    m.translate(|p: [i64; 3]| [p[0] + 10, p[1], p[2]]);
    // a quarter turn about z, applied twice: the second starts again from rest
    m.rotate_from_rest(|p: [i64; 3]| [-p[1], p[0], p[2]]);
    m.rotate_from_rest(|p: [i64; 3]| [-p[1], p[0], p[2]]);
    assert_eq!(
        m.working_vertices(),
        &vec![[0, 0, 0], [0, 1, 0], [-1, 1, 0], [-1, 0, 0]]
    );
    assert_eq!(m.rest_vertices(), &v);
}

#[test]
fn flatten_faces_reports_first_bad_corner() {
    assert_eq!(
        flatten_faces(&vec![[1, 70000, 80000]], 75000),
        Err(MeshError::IndexTooWide { face: 0, vertex: 70000 })
    );
    assert_eq!(
        flatten_faces(&vec![[1, 80000, 70000]], 75000),
        Err(MeshError::VertexOutOfRange { face: 0, vertex: 80000 })
    );
}
