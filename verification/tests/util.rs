use soar_cli::color::{Color, ColorExt};
use soar_cli::util::{
    format_bytes, is_yes, parse_selection, parse_size, size_amount, size_unit, trim, AskType,
};

#[test]
fn bytes_below_a_kibibyte() {
    assert_eq!(format_bytes(0), "0 B");
    assert_eq!(format_bytes(1), "1 B");
    assert_eq!(format_bytes(1023), "1023 B");
}

#[test]
fn bytes_in_larger_units() {
    assert_eq!(format_bytes(1024), "1.00 KiB");
    assert_eq!(format_bytes(1536), "1.50 KiB");
    assert_eq!(format_bytes(1024 * 1024 - 1), "1024.00 KiB");
    assert_eq!(format_bytes(1024 * 1024), "1.00 MiB");
    assert_eq!(format_bytes(10 * 1024 * 1024), "10.00 MiB");
    assert_eq!(format_bytes(1024 * 1024 * 1024), "1.00 GiB");
    assert_eq!(format_bytes(5 * 1024 * 1024 * 1024 + 512 * 1024 * 1024), "5.50 GiB");
    assert_eq!(format_bytes(u64::MAX), "17179869184.00 GiB");
}

#[test]
fn bytes_are_rounded_to_the_nearest_hundredth() {
    assert_eq!(format_bytes(1025), "1.00 KiB");
    assert_eq!(format_bytes(1029), "1.00 KiB");
    assert_eq!(format_bytes(1030), "1.01 KiB");
    assert_eq!(format_bytes(2047), "2.00 KiB");
    assert_eq!(format_bytes(1234567), "1.18 MiB");
}

#[test]
fn a_value_halfway_takes_the_even_hundredth() {
    assert_eq!(format_bytes(1152), "1.12 KiB");
    assert_eq!(format_bytes(1408), "1.38 KiB");
}

#[test]
fn bytes_agree_with_floating_point_formatting() {
    let mut seed: u64 = 99;
    for _ in 0..2000 {
        seed = seed.wrapping_mul(6364136223846793005).wrapping_add(1442695040888963407);
        let bytes = seed >> (11 + (seed % 40));
        let expected = if bytes >= 1 << 30 {
            format!("{:.2} GiB", bytes as f64 / (1u64 << 30) as f64)
        } else if bytes >= 1 << 20 {
            format!("{:.2} MiB", bytes as f64 / (1u64 << 20) as f64)
        } else if bytes >= 1 << 10 {
            format!("{:.2} KiB", bytes as f64 / 1024.0)
        } else {
            format!("{bytes} B")
        };
        assert_eq!(format_bytes(bytes), expected, "{bytes}");
    }
}

#[test]
fn trimming() {
    let t = |s: &str| -> String { trim(&s.chars().collect::<Vec<_>>()).into_iter().collect() };
    assert_eq!(t("  a b \n"), "a b");
    assert_eq!(t("\t\r\nx"), "x");
    assert_eq!(t("x"), "x");
    assert_eq!(t(""), "");
    assert_eq!(t("   "), "");
    assert_eq!(t(" \u{b}\u{c} y \u{b}"), "y");
    assert_eq!(t("\u{a0}\u{2003}z\u{3000}\u{85}"), "z");
    assert_eq!(t("\u{200b}z"), "\u{200b}z");
    for sample in ["  a  ", "\t\n", "\u{2028}x y\u{2029}", "", "no", "\u{1680}é\u{feff}"] {
        assert_eq!(t(sample), sample.trim(), "{sample:?}");
    }
}

#[test]
fn answers_to_a_choice() {
    assert_eq!(parse_selection("1\n", 3), Some(0));
    assert_eq!(parse_selection("  3  ", 3), Some(2));
    assert_eq!(parse_selection("0", 3), None);
    assert_eq!(parse_selection("4", 3), None);
    assert_eq!(parse_selection("", 3), None);
    assert_eq!(parse_selection("\n", 3), None);
    assert_eq!(parse_selection("two", 3), None);
    assert_eq!(parse_selection("1 2", 3), None);
    assert_eq!(parse_selection("-1", 3), None);
    assert_eq!(parse_selection("1", 0), None);
    assert_eq!(parse_selection("99999999999999999999999999", 3), None);
    assert_eq!(parse_selection("0002", 3), Some(1));
}

#[test]
fn answers_to_yes_or_no() {
    assert!(is_yes("y"));
    assert!(is_yes("Y\n"));
    assert!(is_yes("  y  "));
    assert!(!is_yes("yes"));
    assert!(!is_yes("n"));
    assert!(!is_yes(""));
    assert!(!is_yes("\n"));
}

#[test]
fn ways_of_asking() {
    assert_ne!(AskType::Warn, AskType::Normal);
}

#[test]
fn colour_codes() {
    assert_eq!(Color::Reset.to_ansi_code(false), "\x1B[0m");
    assert_eq!(Color::Reset.to_ansi_code(true), "\x1B[0m");
    assert_eq!(Color::Black.to_ansi_code(false), "\x1B[30m");
    assert_eq!(Color::Black.to_ansi_code(true), "\x1B[40m");
    assert_eq!(Color::Red.to_ansi_code(false), "\x1B[31m");
    assert_eq!(Color::Red.to_ansi_code(true), "\x1B[41m");
    assert_eq!(Color::White.to_ansi_code(false), "\x1B[37m");
    assert_eq!(Color::White.to_ansi_code(true), "\x1B[47m");
    assert_eq!(Color::BrightBlack.to_ansi_code(false), "\x1B[90m");
    assert_eq!(Color::BrightBlack.to_ansi_code(true), "\x1B[100m");
    assert_eq!(Color::BrightWhite.to_ansi_code(false), "\x1B[97m");
    assert_eq!(Color::BrightWhite.to_ansi_code(true), "\x1B[107m");
}

#[test]
fn every_colour_has_its_own_code() {
    let all = [
        Color::Black, Color::Red, Color::Green, Color::Yellow, Color::Blue, Color::Magenta, Color::Cyan,
        Color::White, Color::BrightBlack, Color::BrightRed, Color::BrightGreen, Color::BrightYellow,
        Color::BrightBlue, Color::BrightMagenta, Color::BrightCyan, Color::BrightWhite,
    ];
    for (i, c) in all.iter().enumerate() {
        let base = if i < 8 { 30 + i } else { 90 + i - 8 };
        assert_eq!(c.to_ansi_code(false), format!("\x1B[{}m", base));
        assert_eq!(c.to_ansi_code(true), format!("\x1B[{}m", base + 10));
    }
}

#[test]
fn coloured_text() {
    assert_eq!("hi".color(Color::Blue), "\x1B[34mhi\x1B[0m");
    assert_eq!("hi".bg_color(Color::Blue), "\x1B[44mhi\x1B[0m");
    assert_eq!("hi".bold(), "\x1B[0m\x1B[1mhi\x1B[0m");
    assert_eq!("".color(Color::Reset), "\x1B[0m\x1B[0m");
}

#[test]
fn sizes_in_bytes() {
    assert_eq!(parse_size("0B"), Some(0));
    assert_eq!(parse_size("42B"), Some(42));
    assert_eq!(parse_size("42 b"), Some(42));
    assert_eq!(parse_size("  42 B \n"), Some(42));
    assert_eq!(parse_size("18446744073709551615B"), Some(u64::MAX));
    assert_eq!(parse_size("18446744073709551616B"), None);
}

#[test]
fn sizes_in_decimal_units() {
    assert_eq!(parse_size("1KB"), Some(1_000));
    assert_eq!(parse_size("10 MB"), Some(10_000_000));
    assert_eq!(parse_size("3gb"), Some(3_000_000_000));
    assert_eq!(parse_size("1.5MB"), Some(1_500_000));
    assert_eq!(parse_size("0.001KB"), Some(1));
    assert_eq!(parse_size("0.0009KB"), Some(0));
    assert_eq!(parse_size("2.kB"), Some(2_000));
}

#[test]
fn sizes_in_binary_units() {
    assert_eq!(parse_size("1KiB"), Some(1024));
    assert_eq!(parse_size("1.5 MiB"), Some(1_572_864));
    assert_eq!(parse_size("2GiB"), Some(2_147_483_648));
    assert_eq!(parse_size("1 gib"), Some(1_073_741_824));
    assert_eq!(parse_size("0.5KIB"), Some(512));
    assert_eq!(parse_size("1.0009765625KiB"), Some(1024));
    assert_eq!(parse_size("17179869183GiB"), Some(17179869183 << 30));
    assert_eq!(parse_size("17179869184GiB"), None);
}

#[test]
fn a_fraction_is_read_to_nine_places() {
    assert_eq!(parse_size("0.9999999999GB"), Some(999_999_999));
    assert_eq!(parse_size("0.999999999GB"), Some(999_999_999));
    assert_eq!(parse_size("0.123456789123GB"), Some(123_456_789));
}

#[test]
fn what_is_no_size() {
    for text in ["", "42", "B", "KB", "1.5", "x1KB", "1 K", "1iB", "1TB5", "-1B", "+1B", "1e3B", ".5KB", "1..2KB", "1.2.3KB", "1 2KB", "1,5MB", "1.5 M B"] {
        assert_eq!(parse_size(text), None, "{text}");
    }
}

fn chars(s: &str) -> Vec<char> {
    s.chars().collect()
}

#[test]
fn the_unit_of_a_size_is_read_from_its_end() {
    assert_eq!(size_unit(&chars("1.5 MB")), Some((1_000_000, 2)));
    assert_eq!(size_unit(&chars("1KB")), Some((1_000, 2)));
    assert_eq!(size_unit(&chars("1 gb")), Some((1_000_000_000, 2)));
    assert_eq!(size_unit(&chars("1KiB")), Some((1 << 10, 3)));
    assert_eq!(size_unit(&chars("1mIb")), Some((1 << 20, 3)));
    assert_eq!(size_unit(&chars("GiB")), Some((1 << 30, 3)));
    assert_eq!(size_unit(&chars("42B")), Some((1, 1)));
    assert_eq!(size_unit(&chars("b")), Some((1, 1)));
    assert_eq!(size_unit(&chars("7TB")), Some((1, 1)));
    assert_eq!(size_unit(&chars("7iB")), None);
    assert_eq!(size_unit(&chars("iB")), None);
    assert_eq!(size_unit(&chars("7TiB")), None);
    assert_eq!(size_unit(&chars("7")), None);
    assert_eq!(size_unit(&chars("7B ")), None);
    assert_eq!(size_unit(&chars("")), None);
}

#[test]
fn an_amount_is_a_number_of_units() {
    assert_eq!(size_amount(&chars("1.5"), 1_000_000), Some(1_500_000));
    assert_eq!(size_amount(&chars("10"), 1_000_000), Some(10_000_000));
    assert_eq!(size_amount(&chars("0.5"), 1024), Some(512));
    assert_eq!(size_amount(&chars("0.0009"), 1000), Some(0));
    assert_eq!(size_amount(&chars("2."), 1000), Some(2000));
    assert_eq!(size_amount(&chars("0.1234567891"), 1_000_000_000), Some(123_456_789));
    assert_eq!(size_amount(&chars("18446744073709551615"), 1), Some(u64::MAX));
    assert_eq!(size_amount(&chars("18446744073709551616"), 1), None);
    assert_eq!(size_amount(&chars("1"), u64::MAX), Some(u64::MAX));
    assert_eq!(size_amount(&chars("1.000000001"), u64::MAX), None);
    assert_eq!(size_amount(&chars("0.5"), u64::MAX), Some(u64::MAX / 2));
    assert_eq!(size_amount(&chars("2"), u64::MAX), None);
    assert_eq!(size_amount(&chars("99999999999999999999999"), 0), Some(0));
    assert_eq!(size_amount(&chars("7.9"), 0), Some(0));
    for text in ["", ".5", "1.5 ", " 1", "1,5", "1.5.2", "-1", "+1", "1e3", "x"] {
        assert_eq!(size_amount(&chars(text), 1000), None, "{text}");
        assert_eq!(size_amount(&chars(text), 0), None, "{text}");
    }
}
