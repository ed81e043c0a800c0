use graphex::fps;

#[test]
fn eleven_samples_a_tenth_of_a_second_apart_give_ten() {
    let mut timer = fps::new();
    for i in 0u32..11 {
        timer.tick(i * 100);
    }
    assert!(timer.ready());
    assert_eq!(timer.average(), 10);
}

#[test]
fn not_ready_before_the_ring_is_full() {
    let mut timer = fps::new();
    assert!(!timer.ready());
    for i in 0u32..10 {
        timer.tick(i * 100);
        assert!(!timer.ready());
    }
    timer.tick(1000);
    assert!(timer.ready());
}

#[test]
fn not_ready_when_no_time_has_passed() {
    let mut timer = fps::new();
    for _ in 0..11 {
        timer.tick(500);
    }
    assert!(!timer.ready());
}

#[test]
fn not_ready_when_the_clock_has_gone_back() {
    let mut timer = fps::new();
    timer.tick(4_000_000_000);
    for i in 0u32..10 {
        timer.tick(i);
    }
    assert!(!timer.ready());
}

#[test]
fn the_oldest_sample_is_forgotten() {
    let mut timer = fps::new();
    timer.tick(0);
    for i in 0u32..11 {
        timer.tick(5000 + i * 20);
    }
    // Eleven frames 20 ms apart remain: 10 frames in 200 ms.
    assert!(timer.ready());
    assert_eq!(timer.average(), 50);
}

#[test]
fn average_is_rounded_down() {
    let mut timer = fps::new();
    for i in 0u32..11 {
        timer.tick(i * 16);
    }
    // 10 frames in 160 ms: 62.5 frames per second.
    assert_eq!(timer.average(), 62);
}

#[test]
fn average_of_slow_frames_is_zero() {
    let mut timer = fps::new();
    for i in 0u32..11 {
        timer.tick(i * 1001);
    }
    assert_eq!(timer.average(), 0);
}

#[test]
fn average_over_one_millisecond_is_ten_thousand() {
    let mut timer = fps::new();
    for _ in 0..10 {
        timer.tick(7);
    }
    timer.tick(8);
    assert_eq!(timer.average(), 10_000);
}

#[test]
fn size_is_eleven() {
    assert_eq!(fps::SIZE, 11);
}
