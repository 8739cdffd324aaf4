use soar_cli::file::{
    find_offset, get_file_type, FileType, APPIMAGE_MAGIC_BYTES, ELF_MAGIC_BYTES, FLATIMAGE_MAGIC_BYTES,
};

fn header(first: [u8; 4], third: [u8; 4]) -> Vec<u8> {
    let mut h = Vec::new();
    h.extend_from_slice(&first);
    h.extend_from_slice(&[2, 1, 1, 0]);
    h.extend_from_slice(&third);
    h
}

#[test]
fn magic_numbers() {
    assert_eq!(ELF_MAGIC_BYTES, [0x7f, b'E', b'L', b'F']);
    assert_eq!(APPIMAGE_MAGIC_BYTES, [b'A', b'I', 2, 0]);
    assert_eq!(FLATIMAGE_MAGIC_BYTES, [b'F', b'I', 1, 0]);
}

#[test]
fn an_appimage_is_an_elf_file_with_the_appimage_mark() {
    assert_eq!(get_file_type(&header(ELF_MAGIC_BYTES, APPIMAGE_MAGIC_BYTES)), FileType::AppImage);
}

#[test]
fn a_flatimage_is_an_elf_file_with_the_flatimage_mark() {
    assert_eq!(get_file_type(&header(ELF_MAGIC_BYTES, FLATIMAGE_MAGIC_BYTES)), FileType::FlatImage);
}

#[test]
fn any_other_elf_file_is_plain() {
    assert_eq!(get_file_type(&header(ELF_MAGIC_BYTES, [0, 0, 0, 0])), FileType::ELF);
    assert_eq!(get_file_type(&header(ELF_MAGIC_BYTES, [0x41, 0x49, 0x01, 0x00])), FileType::ELF);
    let mut long = header(ELF_MAGIC_BYTES, [9, 9, 9, 9]);
    long.extend_from_slice(&[1; 100]);
    assert_eq!(get_file_type(&long), FileType::ELF);
}

#[test]
fn what_does_not_begin_like_an_elf_file_is_unknown() {
    assert_eq!(get_file_type(&header([b'#', b'!', b'/', b'b'], APPIMAGE_MAGIC_BYTES)), FileType::Unknown);
    assert_eq!(get_file_type(&header([0x7f, b'E', b'L', b'G'], FLATIMAGE_MAGIC_BYTES)), FileType::Unknown);
    assert_eq!(get_file_type(&[]), FileType::Unknown);
}

#[test]
fn a_file_of_fewer_than_twelve_bytes_is_unknown() {
    let h = header(ELF_MAGIC_BYTES, APPIMAGE_MAGIC_BYTES);
    assert_eq!(get_file_type(&h[..11]), FileType::Unknown);
    assert_eq!(get_file_type(&h[..4]), FileType::Unknown);
    assert_eq!(get_file_type(&h[..12]), FileType::AppImage);
}

#[test]
fn the_squashfs_image_is_found_at_a_word_boundary() {
    let mut data = vec![0u8; 64];
    data[40..44].copy_from_slice(b"hsqs");
    assert_eq!(find_offset(&data), Some(40));
    data[12..16].copy_from_slice(b"hsqs");
    assert_eq!(find_offset(&data), Some(12));
    assert_eq!(find_offset(b"hsqs"), Some(0));
}

#[test]
fn a_magic_number_off_the_word_boundary_is_not_found() {
    let mut data = vec![0u8; 64];
    data[41..45].copy_from_slice(b"hsqs");
    assert_eq!(find_offset(&data), None);
}

#[test]
fn no_squashfs_image() {
    assert_eq!(find_offset(&[]), None);
    assert_eq!(find_offset(b"hsq"), None);
    assert_eq!(find_offset(&[0u8; 1000]), None);
    assert_eq!(find_offset(b"sqsh0000"), None);
    assert_eq!(find_offset(b"0000hsq"), None);
}
