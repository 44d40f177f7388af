use polysynth::params::{cut_time_unit, split_time_text, trim, TimeUnit};

#[test]
fn milliseconds_suffix() {
    assert_eq!(split_time_text("5ms"), ("5", TimeUnit::Milliseconds));
    assert_eq!(split_time_text(" 12.5 ms "), ("12.5", TimeUnit::Milliseconds));
    assert_eq!(split_time_text("3mS"), ("3", TimeUnit::Milliseconds));
}

#[test]
fn seconds_suffix() {
    assert_eq!(split_time_text("1.5 s"), ("1.5", TimeUnit::Seconds));
    assert_eq!(split_time_text("2S"), ("2", TimeUnit::Seconds));
    // "MS" ends in 'S' only: the 'M' stays with the number.
    assert_eq!(split_time_text("4MS"), ("4M", TimeUnit::Seconds));
}

#[test]
fn no_suffix_means_seconds() {
    assert_eq!(split_time_text("  0.25 "), ("0.25", TimeUnit::Seconds));
    assert_eq!(split_time_text(""), ("", TimeUnit::Seconds));
}

#[test]
fn bare_unit_leaves_empty_number() {
    assert_eq!(split_time_text("ms"), ("", TimeUnit::Milliseconds));
    assert_eq!(split_time_text("s"), ("", TimeUnit::Seconds));
}

#[test]
fn cut_keeps_inner_spacing() {
    assert_eq!(cut_time_unit("7 ms"), ("7 ", TimeUnit::Milliseconds));
    assert_eq!(cut_time_unit("7"), ("7", TimeUnit::Seconds));
    assert_eq!(cut_time_unit("é s"), ("é ", TimeUnit::Seconds));
}

#[test]
fn trim_matches_std_trim() {
    let samples = [
        "",
        "   ",
        " 5 ms ",
        "\t\n\r\x0b\x0c1.5s\u{85}",
        "\u{a0}\u{1680}\u{2000}\u{200a}x y\u{2028}\u{2029}\u{202f}\u{205f}\u{3000}",
        "\u{200b}zero-width space is not whitespace\u{200b}",
        "\u{feff}bom\u{180e}",
        "é",
    ];
    for s in samples {
        assert_eq!(trim(s), s.trim(), "{s:?}");
    }
    // Every character up to U+3000 is whitespace for one exactly when for the other.
    for c in (0u32..0x3001).filter_map(char::from_u32) {
        let s = format!("{c}a{c}");
        assert_eq!(trim(&s), s.trim(), "{:x}", c as u32);
    }
}

#[test]
fn unicode_whitespace_around_units() {
    assert_eq!(split_time_text("\u{3000}20 ms\u{a0}"), ("20", TimeUnit::Milliseconds));
}
