use battleship::{Animation, ClickLatch, FRAME_MILLIS};

#[test]
fn explosion_runs_through_its_frames_once() {
    let mut anim = Animation::new();
    assert!(!anim.update_frame(1000));
    assert_eq!(anim.frame, -1);
    assert!(anim.play());
    assert!(!anim.play());
    let mut now = 0u64;
    for expected in 0..9 {
        now += FRAME_MILLIS;
        assert!(anim.update_frame(now));
        assert_eq!(anim.frame, expected);
        assert!(!anim.update_frame(now + FRAME_MILLIS - 1));
    }
    now += FRAME_MILLIS;
    assert!(!anim.update_frame(now));
    assert!(!anim.in_play);
    assert_eq!(anim.frame, -1);
    assert_eq!(anim.elapsed_time, now);
}

#[test]
fn click_fires_on_press_only() {
    let mut latch = ClickLatch::new();
    assert!(latch.press(true));
    assert!(!latch.press(true));
    assert!(!latch.press(true));
    assert!(!latch.press(false));
    assert!(latch.press(true));
}
