use watersim::strip::tube_strip;

#[test]
fn strip_of_one_slice() {
    assert_eq!(
        tube_strip(1, 2),
        vec![(0, 0), (1, 0), (0, 1), (1, 1), (0, 0), (1, 0)]
    );
}

#[test]
fn strip_of_two_slices() {
    assert_eq!(
        tube_strip(2, 3),
        vec![
            (0, 0), (1, 0), (0, 1), (1, 1), (0, 2), (1, 2), (0, 0), (1, 0),
            (1, 0), (2, 0), (1, 1), (2, 1), (1, 2), (2, 2), (1, 0), (2, 0),
        ]
    );
}

#[test]
fn no_slices_no_samples() {
    assert!(tube_strip(0, 16).is_empty());
}

#[test]
fn body_strip_shape() {
    let samples = tube_strip(8, 16);
    assert_eq!(samples.len(), 2 * 8 * 17);
    for pair in samples.chunks(2) {
        assert_eq!(pair[0].1, pair[1].1);
        assert_eq!(pair[0].0 + 1, pair[1].0);
        assert!(pair[1].0 <= 8);
        assert!(pair[0].1 < 16);
    }
    for s in 0..8 {
        let first = 2 * (s * 17);
        let last = 2 * (s * 17 + 16);
        assert_eq!(samples[first], (s, 0));
        assert_eq!(samples[first], samples[last]);
        assert_eq!(samples[first + 1], samples[last + 1]);
    }
}
