use dig::utils::{cube_side, slice_layout};

#[test]
fn cube_side_finds_exact_roots_only() {
    assert_eq!(cube_side(0), Some(0));
    assert_eq!(cube_side(1), Some(1));
    assert_eq!(cube_side(8), Some(2));
    assert_eq!(cube_side(27), Some(3));
    assert_eq!(cube_side(32_768), Some(32));
    assert_eq!(cube_side(39_304), Some(34));
    assert_eq!(cube_side(884_736), Some(96));
    assert_eq!(cube_side(2), None);
    assert_eq!(cube_side(26), None);
    assert_eq!(cube_side(28), None);
    assert_eq!(cube_side(32_767), None);
    assert_eq!(cube_side(usize::MAX), None);
    assert_eq!(cube_side(1_000_000_000), Some(1000));
}

#[test]
fn slices_are_laid_out_x_fastest() {
    assert_eq!(
        slice_layout(8),
        Some(vec![vec![vec![0, 1], vec![2, 3]], vec![vec![4, 5], vec![6, 7]]])
    );
    assert_eq!(slice_layout(1), Some(vec![vec![vec![0]]]));
    assert_eq!(slice_layout(0), Some(Vec::new()));
    let layout = slice_layout(27).unwrap();
    assert_eq!(layout.len(), 3);
    assert_eq!(layout[2][1], vec![21, 22, 23]);
    assert_eq!(layout[1][2][0], 15);
}

#[test]
fn a_length_that_is_no_cube_has_no_layout() {
    assert_eq!(slice_layout(2), None);
    assert_eq!(slice_layout(9), None);
    assert_eq!(slice_layout(32_767), None);
}
