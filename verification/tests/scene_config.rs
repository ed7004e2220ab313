use hw_raytracer::{Light, Scalar, Scene, SceneError, Vector3f};

fn build(
    width: usize,
    height: usize,
    fov: i64,
    epsilon: i64,
    max_depth: i32,
) -> Result<Scene<u8>, SceneError> {
    Scene::new(
        width,
        height,
        Scalar::from_raw(fov),
        Vector3f::zero(),
        Scalar::from_raw(epsilon),
        max_depth,
    )
}

fn error(width: usize, height: usize, fov: i64, epsilon: i64, max_depth: i32) -> SceneError {
    match build(width, height, fov, epsilon, max_depth) {
        Ok(_) => panic!("the configuration was accepted"),
        Err(e) => e,
    }
}

#[test]
fn scene_new_keeps_a_valid_configuration() {
    let scene: Scene<u8> = Scene::new(
        640,
        480,
        Scalar::from_int(90),
        Vector3f::new(Scalar::from_raw(1), Scalar::from_raw(2), Scalar::from_raw(3)),
        Scalar::from_raw(100),
        5,
    )
    .unwrap();
    assert_eq!(scene.width, 640);
    assert_eq!(scene.height, 480);
    assert_eq!(scene.fov, Scalar::from_raw(90_000_000));
    assert_eq!(scene.background_color.y, Scalar::from_raw(2));
    assert_eq!(scene.epsilon, Scalar::from_raw(100));
    assert_eq!(scene.max_depth, 5);
    assert!(scene.objects.is_empty());
    assert!(scene.lights.is_empty());
}

#[test]
fn scene_new_accepts_the_edges_of_the_valid_range() {
    assert!(build(1, 1, 1, 0, 0).is_ok());
    assert!(build(usize::MAX, usize::MAX, 179_999_999, i64::MAX, i32::MAX - 1).is_ok());
}

#[test]
fn scene_new_refuses_an_image_without_columns_or_rows() {
    assert_eq!(error(0, 480, 90_000_000, 100, 5), SceneError::Width);
    assert_eq!(error(640, 0, 90_000_000, 100, 5), SceneError::Height);
}

#[test]
fn scene_new_refuses_a_field_of_view_outside_the_open_half_turn() {
    assert_eq!(error(640, 480, 0, 100, 5), SceneError::FieldOfView);
    assert_eq!(error(640, 480, -1, 100, 5), SceneError::FieldOfView);
    assert_eq!(error(640, 480, 180_000_000, 100, 5), SceneError::FieldOfView);
    assert_eq!(error(640, 480, 270_000_000, 100, 5), SceneError::FieldOfView);
}

#[test]
fn scene_new_refuses_a_negative_epsilon() {
    assert_eq!(error(640, 480, 90_000_000, -1, 5), SceneError::Epsilon);
}

#[test]
fn scene_new_refuses_a_depth_limit_out_of_range() {
    assert_eq!(error(640, 480, 90_000_000, 100, -1), SceneError::MaxDepth);
    assert_eq!(error(640, 480, 90_000_000, 100, i32::MAX), SceneError::MaxDepth);
}

#[test]
fn scene_new_reports_the_first_fault() {
    assert_eq!(error(0, 0, 0, -1, -1), SceneError::Width);
    assert_eq!(error(1, 0, 0, -1, -1), SceneError::Height);
    assert_eq!(error(1, 1, 0, -1, -1), SceneError::FieldOfView);
    assert_eq!(error(1, 1, 1, -1, -1), SceneError::Epsilon);
}

#[test]
fn scene_add_keeps_the_order() {
    let mut scene = build(2, 2, 90_000_000, 100, 5).unwrap();
    scene.add_object(7);
    scene.add_object(9);
    let near = Light::new(Vector3f::zero(), Vector3f::zero());
    let far = Light::new(
        Vector3f::new(Scalar::from_int(1), Scalar::zero(), Scalar::zero()),
        Vector3f::zero(),
    );
    scene.add_light(near);
    scene.add_light(far);
    assert_eq!(scene.get_objs(), &vec![7u8, 9]);
    assert_eq!(scene.get_lights(), &vec![near, far]);
    assert_eq!(scene.width, 2);
    assert_eq!(scene.max_depth, 5);
}

#[test]
fn scene_validate_follows_the_fields() {
    let mut scene = build(2, 2, 90_000_000, 100, 5).unwrap();
    assert_eq!(scene.validate(), None);
    scene.max_depth = -3;
    assert_eq!(scene.validate(), Some(SceneError::MaxDepth));
    scene.height = 0;
    assert_eq!(scene.validate(), Some(SceneError::Height));
    scene.height = 1;
    scene.max_depth = 0;
    scene.fov = Scalar::from_int(180);
    assert_eq!(scene.validate(), Some(SceneError::FieldOfView));
}
