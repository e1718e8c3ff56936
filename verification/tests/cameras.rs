use dig::camera::{FpsCamera, MAX_PITCH};
use dig::indexed_camera::{selected_index, toggle_cameras, IndexedCamera};

fn pressed(digits: &[usize]) -> [bool; 10] {
    let mut keys = [false; 10];
    for d in digits {
        keys[*d] = true;
    }
    keys
}

#[test]
fn no_number_key_selects_nothing() {
    assert_eq!(selected_index(&pressed(&[])), None);
    let cameras = vec![IndexedCamera::new(0), IndexedCamera::new(1)];
    assert_eq!(toggle_cameras(&pressed(&[]), &cameras), None);
}

#[test]
fn the_highest_number_key_wins() {
    assert_eq!(selected_index(&pressed(&[0])), Some(0));
    assert_eq!(selected_index(&pressed(&[9])), Some(9));
    assert_eq!(selected_index(&pressed(&[3, 7, 5])), Some(7));
    assert_eq!(selected_index(&pressed(&[0, 1, 2, 3, 4, 5, 6, 7, 8, 9])), Some(9));
}

#[test]
fn exactly_the_cameras_of_the_index_become_active() {
    let cameras = vec![
        IndexedCamera::new(0),
        IndexedCamera::new(1),
        IndexedCamera::new(1),
        IndexedCamera::new(12),
    ];
    assert_eq!(cameras[3].index(), 12);
    assert_eq!(toggle_cameras(&pressed(&[0]), &cameras), Some(vec![true, false, false, false]));
    assert_eq!(toggle_cameras(&pressed(&[0, 1]), &cameras), Some(vec![false, true, true, false]));
    assert_eq!(toggle_cameras(&pressed(&[5]), &cameras), Some(vec![false, false, false, false]));
    assert_eq!(toggle_cameras(&pressed(&[2]), &Vec::new()), Some(Vec::new()));
}

#[test]
fn looking_turns_the_avatar_and_tilts_the_camera() {
    let camera = FpsCamera::new(100);
    assert_eq!(camera.sensitivity(), 100);
    // 20 * 0.1 * 0.5 = 1 radian to the side, 3 * 0.1 * 0.5 = 0.15 up.
    assert_eq!(camera.look(0, 0, 20_000, 3000, 500), (-1000, -150));
    assert_eq!(camera.look(500, -100, -20_000, -3000, 500), (1500, 50));
    assert_eq!(camera.look(500, -100, 7, 9, 16), (500, -100));
    assert_eq!(camera.look(500, -100, 20_000, 3000, 0), (500, -100));
}

#[test]
fn pitch_stays_between_its_limits() {
    let camera = FpsCamera::new(1000);
    assert_eq!(MAX_PITCH, 1540);
    assert_eq!(camera.look(0, 0, 0, 2000, 1000), (0, -1540));
    assert_eq!(camera.look(0, 0, 0, -2000, 1000), (0, 1540));
    assert_eq!(camera.look(0, 1540, 0, -1, 1000), (0, 1540));
    assert_eq!(camera.look(0, 1540, 0, 1, 1000), (0, 1539));
    assert_eq!(camera.look(0, 5000, 0, 0, 1000), (0, 1540));
    assert_eq!(camera.look(i32::MIN, 0, i32::MAX, i32::MIN, u32::MAX), (i32::MIN, 1540));
    assert_eq!(camera.look(i32::MAX, 0, i32::MIN, i32::MAX, u32::MAX), (i32::MAX, -1540));
}
