//! Classifying an artifact by its leading bytes, and finding the SquashFS
//! image inside an AppImage.

use vstd::prelude::*;

verus! {

/// The four bytes every ELF file begins with.
pub const ELF_MAGIC_BYTES: [u8; 4] = [0x7f, 0x45, 0x4c, 0x46];

/// Bytes 8 to 11 of an AppImage.
pub const APPIMAGE_MAGIC_BYTES: [u8; 4] = [0x41, 0x49, 0x02, 0x00];

/// Bytes 8 to 11 of a FlatImage.
pub const FLATIMAGE_MAGIC_BYTES: [u8; 4] = [0x46, 0x49, 0x01, 0x00];

/// The kinds of artifact that are told apart.
#[derive(Debug, Clone, Copy, PartialEq, Eq, Structural)]
pub enum FileType {
    AppImage,
    FlatImage,
    ELF,
    Unknown,
}

/// Whether the four bytes at `at` are `first`, `second`, `third` and `fourth`.
pub open spec fn bytes_at(data: Seq<u8>, at: int, first: u8, second: u8, third: u8, fourth: u8) -> bool {
    &&& 0 <= at
    &&& at + 4 <= data.len()
    &&& data[at] == first
    &&& data[at + 1] == second
    &&& data[at + 2] == third
    &&& data[at + 3] == fourth
}

/// The type of a file that begins with `header`. A file of fewer than twelve
/// bytes, or one that does not begin like an ELF file, is `Unknown`; an ELF
/// file is an AppImage or a FlatImage when bytes 8 to 11 say so.
pub open spec fn file_type_of(header: Seq<u8>) -> FileType {
    if header.len() < 12 || !bytes_at(header, 0, 0x7f, 0x45, 0x4c, 0x46) {
        FileType::Unknown
    } else if bytes_at(header, 8, 0x41, 0x49, 0x02, 0x00) {
        FileType::AppImage
    } else if bytes_at(header, 8, 0x46, 0x49, 0x01, 0x00) {
        FileType::FlatImage
    } else {
        FileType::ELF
    }
}

fn has_bytes(data: &[u8], at: usize, expected: &[u8; 4]) -> (r: bool)
    requires
        at + 4 <= data.len(),
    ensures
        r == bytes_at(data@, at as int, expected[0], expected[1], expected[2], expected[3]),
{
    data[at] == expected[0] && data[at + 1] == expected[1] && data[at + 2] == expected[2]
        && data[at + 3] == expected[3]
}

/// Classifies a file by its first twelve bytes.
pub fn get_file_type(header: &[u8]) -> (r: FileType)
    ensures
        r == file_type_of(header@),
{
    if header.len() < 12 || !has_bytes(header, 0, &ELF_MAGIC_BYTES) {
        FileType::Unknown
    } else if has_bytes(header, 8, &APPIMAGE_MAGIC_BYTES) {
        FileType::AppImage
    } else if has_bytes(header, 8, &FLATIMAGE_MAGIC_BYTES) {
        FileType::FlatImage
    } else {
        FileType::ELF
    }
}

/// The magic number of a little-endian SquashFS 4.0 image as
/// `backhand::kind::Kind::magic` gives it for the target `le_v4_0`: the
/// bytes `hsqs`. `Kind::from_target` knows that target in every build of
/// the crate, so that taking its result apart cannot fail.
#[verifier::external_body]
fn squashfs_magic() -> (r: [u8; 4])
    ensures
        r[0] == 0x68,
        r[1] == 0x73,
        r[2] == 0x71,
        r[3] == 0x73,
{
    backhand::kind::Kind::from_target("le_v4_0").unwrap().magic()
}

/// Whether a little-endian SquashFS 4.0 image may begin at `at`.
pub open spec fn squashfs_at(data: Seq<u8>, at: int) -> bool {
    bytes_at(data, at, 0x68, 0x73, 0x71, 0x73)
}

/// Finds the SquashFS image that follows the ELF part of an AppImage: the
/// first place, a whole number of four-byte words into the file, where the
/// SquashFS magic number stands.
pub fn find_offset(data: &[u8]) -> (r: Option<usize>)
    ensures
        match r {
            Some(at) => {
                &&& at % 4 == 0
                &&& squashfs_at(data@, at as int)
                &&& forall|j: int| 0 <= j < at && j % 4 == 0 ==> !squashfs_at(data@, j)
            },
            None => forall|j: int| 0 <= j && j % 4 == 0 ==> !squashfs_at(data@, j),
        },
{
    let magic = squashfs_magic();
    if data.len() < 4 {
        return None;
    }
    let mut at: usize = 0;
    while at <= data.len() - 4
        invariant
            at % 4 == 0,
            data.len() >= 4,
            magic[0] == 0x68,
            magic[1] == 0x73,
            magic[2] == 0x71,
            magic[3] == 0x73,
            forall|j: int| 0 <= j < at && j % 4 == 0 ==> !squashfs_at(data@, j),
        decreases data.len() - at,
    {
        if has_bytes(data, at, &magic) {
            return Some(at);
        }
        at += 4;
    }
    None
}

} // verus!
