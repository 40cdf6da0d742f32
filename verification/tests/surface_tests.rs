use square_engine::FrameGeometry;

#[test]
fn new_geometry_sizes_everything_alike() {
    let g = FrameGeometry::new(1600, 1600);
    assert_eq!(g.surface_width, 1600);
    assert_eq!(g.surface_height, 1600);
    assert_eq!(g.feedback_width, 1600);
    assert_eq!(g.feedback_height, 1600);
}

#[test]
fn resize_twice_equals_resize_once() {
    let mut once = FrameGeometry::new(1600, 1600);
    once.resize(800, 600);
    let mut twice = FrameGeometry::new(1600, 1600);
    twice.resize(800, 600);
    twice.resize(800, 600);
    assert_eq!(once, twice);
    assert_eq!(once.frame_extent(), (800, 600));
}

#[test]
fn record_frame_reallocates_feedback_to_the_surface() {
    let mut g = FrameGeometry {
        surface_width: 1024,
        surface_height: 768,
        feedback_width: 32,
        feedback_height: 32,
    };
    g.record_frame();
    assert_eq!(g.feedback_width, 1024);
    assert_eq!(g.feedback_height, 768);
    assert_eq!(g.surface_width, 1024);
    assert_eq!(g.surface_height, 768);
}
