use emf_mmf::mesh::{
    field_sector_indices, ring_mesh_indices, rotor_sector_indices, tooth_mesh_indices,
    tube_indices,
};

#[test]
fn one_segment_ring_and_tooth() {
    let ring = ring_mesh_indices(1);
    assert_eq!(
        ring,
        vec![
            0, 1, 3, 0, 3, 2, // outer wall
            4, 7, 5, 4, 6, 7, // inner wall
            8, 9, 11, 8, 11, 10, // top cap
            12, 15, 13, 12, 14, 15, // bottom cap
        ]
    );
    let tooth = tooth_mesh_indices(1);
    assert_eq!(&tooth[..24], &ring[..]);
    assert_eq!(&tooth[24..], &[16, 17, 19, 16, 19, 18, 20, 23, 21, 20, 22, 23]);
}

#[test]
fn one_segment_rotor_sector() {
    assert_eq!(
        rotor_sector_indices(1),
        vec![
            0, 3, 1, 0, 2, 3, // outer wall
            4, 5, 7, 4, 7, 6, // inner wall
            8, 9, 11, 8, 11, 10, // top cap
            12, 15, 13, 12, 14, 15, // bottom cap
            16, 19, 18, 16, 17, 19, // start face
            20, 22, 23, 20, 23, 21, // end face
        ]
    );
}

#[test]
fn one_segment_field_lobe() {
    assert_eq!(
        field_sector_indices(1, 2),
        vec![
            0, 1, 3, 0, 3, 2, // top cap
            4, 7, 5, 4, 6, 7, // bottom cap
            8, 9, 11, 8, 11, 10, // outer wall
            12, 15, 13, 12, 14, 15, // inner wall
        ]
    );
}

#[test]
fn a_tube_closes_round_each_ring() {
    assert_eq!(
        tube_indices(1, 3),
        vec![0, 3, 1, 1, 3, 4, 1, 4, 2, 2, 4, 5, 2, 5, 0, 0, 5, 3]
    );
}

#[test]
fn every_index_names_a_vertex() {
    for segments in [1_u32, 4, 16, 48] {
        let vertices = 8 * (segments + 1);
        assert!(ring_mesh_indices(segments).iter().all(|&i| i < vertices));
        assert!(tooth_mesh_indices(segments).iter().all(|&i| i < vertices + 8));
        assert!(rotor_sector_indices(segments).iter().all(|&i| i < vertices + 8));
        let field = field_sector_indices(segments, 6);
        assert_eq!(field.len() as u32, 6 * (2 * 5 * segments + 2 * segments));
        assert!(field.iter().all(|&i| i < 16 * (segments + 1)));
    }
    let tube = tube_indices(26, 12);
    assert_eq!(tube.len(), 6 * 26 * 12);
    assert!(tube.iter().all(|&i| i < 27 * 12));
}
