use linsn::sprite::{AnimatedPath, LoopMode};

#[test]
fn new_path_is_unstarted() {
    let points = vec![(0, 0, 0u64, false), (100, 50, 4000u64, false)];
    let path = AnimatedPath::new(points.clone());
    assert_eq!(path.points, points);
    assert!(path.start.is_none());
    assert!(!path.finished);
}

#[test]
fn reset_rewinds_without_losing_points() {
    let points = vec![(5, 6, 7u64, true)];
    let mut path = AnimatedPath::new(points.clone());
    path.start = Some(123456);
    path.finished = true;
    path.reset();
    assert_eq!(path.points, points);
    assert!(path.start.is_none());
    assert!(!path.finished);
}

#[test]
fn random_path_crosses_the_panel() {
    let mut rng = rand::thread_rng();
    for _ in 0..100 {
        let path = AnimatedPath::new_random(&mut rng, 16000);
        assert_eq!(path.points.len(), 2);
        let (x0, y0, t0, l0) = path.points[0];
        let (x1, y1, t1, l1) = path.points[1];
        assert_eq!(t0, 0);
        assert_eq!(t1, 16000);
        assert_eq!(y0, y1);
        assert!((0..64).contains(&y0));
        assert_eq!(l0, l1);
        if l0 {
            assert_eq!((x0, x1), (200, -32));
        } else {
            assert_eq!((x0, x1), (-32, 200));
        }
        assert!(path.start.is_none());
        assert!(!path.finished);
    }
}

#[test]
fn loop_modes_exist() {
    assert_ne!(LoopMode::Loop, LoopMode::PingPong);
}
