use awatchlog::window::{
    halved, next_window, over_count, DEFAULT_DELTA, INITIAL_WINDOW, MAX_BATCH_EVENTS, MAX_BATCH_SIZE,
    MIN_WINDOW,
};

#[test]
fn limits_have_their_values() {
    assert_eq!(MAX_BATCH_SIZE, 1048576 - 10000 * 26);
    assert_eq!(MAX_BATCH_EVENTS, 10000);
    assert_eq!(MIN_WINDOW, 8192);
    assert_eq!(INITIAL_WINDOW, 16384);
    assert_eq!(DEFAULT_DELTA, 256);
}

#[test]
fn over_count_window_is_halved() {
    assert!(over_count(10000));
    assert!(over_count(25000));
    assert!(!over_count(9999));
    assert_eq!(next_window(20000, 10000, 16384, 256), 8192);
    assert_eq!(next_window(500000, 12000, 788576, 256), 394288);
    assert_eq!(next_window(300000, 10000, 300001, 256), 150000);
}

#[test]
fn halving_stops_at_the_minimum() {
    assert_eq!(halved(16384), 8192);
    assert_eq!(halved(16385), 8192);
    assert_eq!(halved(9000), MIN_WINDOW);
    assert_eq!(halved(0), MIN_WINDOW);
    assert_eq!(halved(u64::MAX), u64::MAX / 2);
}

#[test]
fn under_filled_window_shrinks_to_content() {
    assert_eq!(next_window(16000, 5, 16384, 256), 16000);
    assert_eq!(next_window(9000, 5, 16384, 256), 9000);
    assert_eq!(next_window(16127, 5, 16384, 256), 16127);
}

#[test]
fn shrinking_stops_at_the_minimum() {
    assert_eq!(next_window(1000, 5, 16384, 256), MIN_WINDOW);
    assert_eq!(next_window(257, 1, 16384, 256), MIN_WINDOW);
}

#[test]
fn filled_window_grows_by_half() {
    assert_eq!(next_window(16384, 5, 16384, 256), 24576);
    assert_eq!(next_window(16128, 5, 16384, 256), 24192);
    assert_eq!(next_window(16200, 5, 16384, 256), 24300);
    assert_eq!(next_window(10001, 5, 10001, 0), 15001);
}

#[test]
fn growth_stops_at_the_byte_ceiling() {
    assert_eq!(next_window(700000, 5, 700000, 256), MAX_BATCH_SIZE);
    assert_eq!(next_window(MAX_BATCH_SIZE, 5, MAX_BATCH_SIZE, 256), MAX_BATCH_SIZE);
    assert_eq!(next_window(u64::MAX, 5, u64::MAX, 256), MAX_BATCH_SIZE);
}

#[test]
fn content_within_the_slack_is_not_under_filled() {
    // 256 is not more than the slack: the window grows from the content.
    assert_eq!(next_window(256, 1, 16384, 256), MIN_WINDOW);
    assert_eq!(next_window(100, 1, 16384, 256), MIN_WINDOW);
    // A slack larger than the window never shrinks it.
    assert_eq!(next_window(9000, 1, 10000, 20000), 13500);
}

#[test]
fn steady_volume_settles_within_one_step() {
    // Every read finds 20000 new bytes, as far as the window reaches.
    let volume: u64 = 20000;
    let mut window: u64 = INITIAL_WINDOW;
    let mut seen: Vec<u64> = Vec::new();
    for _ in 0..8 {
        let content = if volume < window { volume } else { window };
        window = next_window(content, 10, window, DEFAULT_DELTA);
        seen.push(window);
    }
    assert_eq!(seen, vec![24576, 20000, 30000, 20000, 30000, 20000, 30000, 20000]);
}

#[test]
fn steady_volume_is_reached_from_far_below() {
    let volume: u64 = 500000;
    let mut window: u64 = MIN_WINDOW;
    let mut steps = 0;
    while window < volume {
        let content = if volume < window { volume } else { window };
        let following = next_window(content, 10, window, DEFAULT_DELTA);
        assert!(following > window);
        window = following;
        steps += 1;
    }
    assert_eq!(steps, 11);
    let content = if volume < window { volume } else { window };
    let settled = next_window(content, 10, window, DEFAULT_DELTA);
    assert!(settled == volume || settled == 750000);
}
