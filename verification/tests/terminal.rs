use soar_cli::install::OwnershipTag;
use soar_cli::run::{cache_expired, CACHE_TTL};
use soar_cli::terminal::{build_transmit_sequence, wrap_text, TRANSMIT_CHUNK};

#[test]
fn short_text_is_not_wrapped() {
    assert_eq!(wrap_text("hello", 10, 4), "hello");
    assert_eq!(wrap_text("hello", 5, 4), "hello");
    assert_eq!(wrap_text("", 5, 4), "");
}

#[test]
fn long_text_is_wrapped_and_indented() {
    assert_eq!(wrap_text("abcdefgh", 3, 2), "abc\n\x1b[2Cdef\n\x1b[2Cgh");
    assert_eq!(wrap_text("abcdef", 3, 32), "abc\n\x1b[32Cdef");
    assert_eq!(wrap_text("ab", 1, 0), "a\n\x1b[0Cb");
}

#[test]
fn a_width_of_nothing_puts_every_character_on_its_own_line() {
    assert_eq!(wrap_text("ab", 0, 1), "\n\x1b[1Ca\n\x1b[1Cb");
}

#[test]
fn escape_sequences_take_no_room() {
    assert_eq!(wrap_text("\x1b[31mabc\x1b[0mdef", 3, 1), "\x1b[31mabc\x1b[0m\n\x1b[1Cdef");
    assert_eq!(wrap_text("a\x1b[1;32mb", 2, 1), "a\x1b[1;32mb");
    assert_eq!(wrap_text("\x1bZ", 2, 1), "\x1bZ");
}

#[test]
fn an_unfinished_escape_sequence_is_left_out() {
    assert_eq!(wrap_text("ab\x1b[31", 5, 1), "ab");
    assert_eq!(wrap_text("ab\x1b", 5, 1), "ab");
    assert_eq!(wrap_text("\x1b[", 5, 1), "");
}

#[test]
fn little_image_data_goes_in_one_sequence() {
    assert_eq!(build_transmit_sequence("QUJD"), "\x1b_Ga=T,f=100,;QUJD\x1b\\");
    assert_eq!(build_transmit_sequence(""), "");
    let exact = "A".repeat(TRANSMIT_CHUNK);
    assert_eq!(build_transmit_sequence(&exact), format!("\x1b_Ga=T,f=100,;{exact}\x1b\\"));
}

#[test]
fn much_image_data_goes_in_several_sequences() {
    let data: String = (0..2 * TRANSMIT_CHUNK + 10).map(|i| (b'a' + (i % 26) as u8) as char).collect();
    let expected = format!(
        "\x1b_Ga=T,f=100,m=1;{}\x1b\\\x1b_Gm=1;{}\x1b\\\x1b_G;{}\x1b\\",
        &data[..TRANSMIT_CHUNK],
        &data[TRANSMIT_CHUNK..2 * TRANSMIT_CHUNK],
        &data[2 * TRANSMIT_CHUNK..]
    );
    assert_eq!(build_transmit_sequence(&data), expected);
    let one_more = "B".repeat(TRANSMIT_CHUNK + 1);
    assert_eq!(
        build_transmit_sequence(&one_more),
        format!("\x1b_Ga=T,f=100,m=1;{}\x1b\\\x1b_G;B\x1b\\", "B".repeat(TRANSMIT_CHUNK))
    );
}

#[test]
fn the_cache_keeps_artifacts_for_eight_hours() {
    assert_eq!(CACHE_TTL, 8 * 60 * 60);
    assert!(!cache_expired(OwnershipTag::Managed, 0));
    assert!(!cache_expired(OwnershipTag::Managed, CACHE_TTL - 1));
    assert!(cache_expired(OwnershipTag::Managed, CACHE_TTL));
    assert!(cache_expired(OwnershipTag::Managed, u64::MAX));
    assert!(!cache_expired(OwnershipTag::Foreign, u64::MAX));
    assert!(!cache_expired(OwnershipTag::Unsupported, u64::MAX));
}
