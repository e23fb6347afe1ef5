use minceraft::config::{clamp_framelimit, frame_sleep_ms, parse_resolution, FrameConfig};

#[test]
fn default_resolution() {
    assert_eq!(parse_resolution("1280x720"), Some((1280, 720)));
}

#[test]
fn resolution_forms() {
    assert_eq!(parse_resolution("800x600x3"), Some((800, 600)));
    assert_eq!(parse_resolution("+5x+6"), Some((5, 6)));
    assert_eq!(parse_resolution("007x08"), Some((7, 8)));
    assert_eq!(parse_resolution("0x0"), Some((0, 0)));
}

#[test]
fn bad_resolutions() {
    for s in ["", "1280", "x720", "1280x", "-5x6", "5x-6", "12a4x5", "1920X1080", "+x1", "1 x2", "99999999999999999999999x1", "1x99999999999999999999999", "12×34"] {
        assert_eq!(parse_resolution(s), None, "{s}");
    }
}

#[test]
fn resolution_pieces_read_like_std() {
    for s in ["1x2", "+1x2", "18446744073709551615x1", "18446744073709551616x1", "4294967296x3", "x", "xx", "1xx", "1x2x", "++1x2", "1x+", "٣x4"] {
        let mut it = s.split('x');
        let w = it.next().unwrap().parse::<usize>();
        let expected = match w {
            Ok(w) => match it.next().map(|h| h.parse::<usize>()) {
                Some(Ok(h)) => Some((w, h)),
                _ => None,
            },
            Err(_) => None,
        };
        assert_eq!(parse_resolution(s), expected, "{s}");
    }
}

#[test]
fn framelimit_is_at_most_a_thousand() {
    assert_eq!(clamp_framelimit(144), 144);
    assert_eq!(clamp_framelimit(0), 0);
    assert_eq!(clamp_framelimit(1000), 1000);
    assert_eq!(clamp_framelimit(5000), 1000);
    assert_eq!(clamp_framelimit(u64::MAX), 1000);
}

#[test]
fn frame_config_from_args() {
    assert_eq!(
        FrameConfig::from_args("1280x720", 144),
        Some(FrameConfig { width: 1280, height: 720, framelimit: 144 })
    );
    assert_eq!(
        FrameConfig::from_args("640x480", 10_000),
        Some(FrameConfig { width: 640, height: 480, framelimit: 1000 })
    );
    assert_eq!(FrameConfig::from_args("640-480", 60), None);
}

#[test]
fn frame_sleep_values() {
    assert_eq!(frame_sleep_ms(3, 144), Some(6));
    assert_eq!(frame_sleep_ms(0, 1), Some(1000));
    assert_eq!(frame_sleep_ms(999, 1000), Some(1));
    assert_eq!(frame_sleep_ms(1000, 1000), None);
    assert_eq!(frame_sleep_ms(6944, 144), Some(0));
    assert_eq!(frame_sleep_ms(6945, 144), None);
    assert_eq!(frame_sleep_ms(7000, 144), None);
    assert_eq!(frame_sleep_ms(u64::MAX, u64::MAX), None);
}

/// The wait agrees with the game's own arithmetic on seconds as floats.
#[test]
fn frame_sleep_matches_float_rule() {
    for framelimit in [1u64, 7, 30, 60, 144, 999, 1000] {
        for elapsed in (0u64..20_000).step_by(7) {
            let deltatime = elapsed as f64 / 1000.0;
            let expected = if deltatime < 1000.0 / framelimit as f64 {
                Some(1000 / framelimit - deltatime as u64)
            } else {
                None
            };
            assert_eq!(frame_sleep_ms(elapsed, framelimit), expected, "{elapsed} {framelimit}");
        }
    }
}

#[test]
fn resolution_round_trip() {
    for w in [0usize, 1, 9, 10, 640, 1280, 1920, 3840, usize::MAX] {
        for h in [0usize, 7, 100, 720, 1080, 2160, usize::MAX] {
            assert_eq!(parse_resolution(&format!("{w}x{h}")), Some((w, h)));
        }
    }
}
