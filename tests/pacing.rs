use raycaster::pacing::{frame_pacing, Config, FramePacing};

#[test]
fn early_frame_sleeps_for_the_rest_of_its_budget() {
    assert_eq!(frame_pacing(60, 10), FramePacing::Sleep(6));
    assert_eq!(frame_pacing(60, 16), FramePacing::Sleep(0));
    assert_eq!(frame_pacing(1, 0), FramePacing::Sleep(1000));
}

#[test]
fn late_frame_reports_the_overrun() {
    assert_eq!(frame_pacing(60, 20), FramePacing::Missed(4));
    assert_eq!(frame_pacing(2000, 3), FramePacing::Missed(3));
}

#[test]
fn standard_config() {
    let c = Config::standard();
    assert_eq!((c.width, c.height, c.fps, c.fov), (640, 480, 60, 60));
}

