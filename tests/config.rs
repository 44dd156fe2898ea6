use lifegame::config::{min_15, point_from_str, ConfigError};
use lifegame::geometry::Size;

#[test]
fn point_reads_width_and_height() {
    assert_eq!(point_from_str("160:32"), Ok((160, 32)));
    assert_eq!(point_from_str("007:65535"), Ok((7, 65535)));
}

#[test]
fn point_with_bad_shape_is_invalid_format() {
    for s in ["", "abc", "5", "5:", ":5", "5:5\n", " 5:5", "5:5:5", "-1:3"] {
        assert_eq!(point_from_str(s), Err(ConfigError::InvalidFormat), "{s:?}");
    }
}

#[test]
fn point_too_large_is_invalid_number() {
    assert_eq!(point_from_str("65536:1"), Err(ConfigError::InvalidNumber));
}

#[test]
fn size_parse_builds_size() {
    assert_eq!(Size::parse("5:4"), Ok(Size { width: 5, height: 4 }));
}

#[test]
fn tick_interval_has_a_floor() {
    assert_eq!(min_15("100"), Ok(100));
    assert_eq!(min_15("3"), Ok(15));
    assert_eq!(min_15("15"), Ok(15));
    assert_eq!(min_15("+20"), Ok(20));
    assert_eq!(min_15("18446744073709551615"), Ok(u64::MAX));
}

#[test]
fn tick_interval_garbage_is_invalid_number() {
    for s in ["", "+", "x", "-5", "1.5", "18446744073709551616"] {
        assert_eq!(min_15(s), Err(ConfigError::InvalidNumber), "{s:?}");
    }
}

#[test]
fn terminal_size_keeps_footer_free() {
    assert_eq!(Size::from_terminal(80, 30), Ok(Size { width: 80, height: 25 }));
    assert_eq!(Size::from_terminal(80, 5), Err(ConfigError::TerminalTooSmall));
    assert_eq!(Size::from_terminal(0, 30), Err(ConfigError::TerminalTooSmall));
}
