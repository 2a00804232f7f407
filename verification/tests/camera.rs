use hex_instance::components::active_camera;
use hex_instance::{Camera, Entity, Transform};

fn proj(tag: u32) -> [[u32; 4]; 4] {
    [[tag, 0, 0, 0], [0, tag, 0, 0], [0, 0, tag, 0], [0, 0, 0, tag]]
}

fn matrix(tag: u32) -> [[u32; 3]; 3] {
    [[tag, 0, 0], [0, tag, 0], [0, 0, tag]]
}

fn entity(camera: Option<(u32, bool)>, transform: Option<(u32, bool)>) -> Entity {
    Entity {
        camera: camera.map(|(tag, active)| Camera::new(proj(tag), active)),
        transform: transform.map(|(tag, active)| Transform::new(matrix(tag), active)),
        instance: None,
    }
}

#[test]
fn no_entities_no_camera() {
    assert_eq!(active_camera(&Vec::new()), None);
}

#[test]
fn the_first_camera_is_used() {
    let table = vec![
        entity(None, Some((1, true))),
        entity(Some((2, true)), Some((3, true))),
        entity(Some((4, true)), Some((5, true))),
    ];
    let (id, camera, transform) = active_camera(&table).unwrap();
    assert_eq!(id, 1);
    assert_eq!(camera.proj, proj(2));
    assert_eq!(transform.matrix, matrix(3));
}

#[test]
fn inactive_cameras_are_passed_over() {
    let table = vec![
        entity(Some((1, false)), Some((1, true))),
        entity(Some((2, true)), Some((2, false))),
        entity(Some((3, true)), None),
        entity(Some((4, true)), Some((4, true))),
    ];
    let (id, camera, _) = active_camera(&table).unwrap();
    assert_eq!(id, 3);
    assert_eq!(camera.proj, proj(4));
}

#[test]
fn only_unusable_cameras_is_no_camera() {
    let table = vec![
        entity(Some((1, false)), Some((1, true))),
        entity(Some((2, true)), Some((2, false))),
        entity(Some((3, true)), None),
        entity(None, Some((4, true))),
    ];
    assert_eq!(active_camera(&table), None);
}
