use watersim::mesh::get_indices;

#[test]
fn indices_of_a_single_quad() {
    assert_eq!(get_indices(2), vec![0, 2, 1, 1, 2, 3]);
}

#[test]
fn indices_of_a_three_by_three_grid() {
    assert_eq!(
        get_indices(3),
        vec![
            0, 3, 1, 1, 3, 4, //
            1, 4, 2, 2, 4, 5, //
            3, 6, 4, 4, 6, 7, //
            4, 7, 5, 5, 7, 8,
        ]
    );
}

#[test]
fn one_vertex_has_no_triangles() {
    assert!(get_indices(1).is_empty());
}

#[test]
fn indices_of_the_simulation_grid() {
    let idx = get_indices(32);
    assert_eq!(idx.len(), 6 * 31 * 31);
    assert_eq!(&idx[..6], &[0, 32, 1, 1, 32, 33]);
    assert_eq!(&idx[idx.len() - 6..], &[990, 1022, 991, 991, 1022, 1023]);
    assert_eq!(*idx.iter().max().unwrap(), 1023);
}

#[test]
fn all_triangles_wound_alike() {
    for g in 2u32..7 {
        let idx = get_indices(g);
        assert_eq!(idx.len() % 3, 0);
        for t in idx.chunks(3) {
            let cell = |v: u32| ((v % g) as i64, (v / g) as i64);
            let (a, b, c) = (cell(t[0]), cell(t[1]), cell(t[2]));
            assert!(t.iter().all(|&v| v < g * g));
            let area2 = (b.0 - a.0) * (c.1 - a.1) - (b.1 - a.1) * (c.0 - a.0);
            assert_eq!(area2, -1);
        }
    }
}
