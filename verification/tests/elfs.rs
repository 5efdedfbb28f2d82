use sharun::elf::{is_elf32, ELFCLASS32, HEADER_LEN};
use sharun::error::LaunchError;

#[test]
fn class_one_is_32_bit() {
    assert_eq!(is_elf32(&[0x7f, b'E', b'L', b'F', 1, 1]), Ok(true));
}

#[test]
fn class_two_is_64_bit() {
    assert_eq!(is_elf32(&[0x7f, b'E', b'L', b'F', 2, 1]), Ok(false));
}

#[test]
fn any_other_class_is_64_bit() {
    assert_eq!(is_elf32(&[0x7f, b'E', b'L', b'F', 0, 1]), Ok(false));
    assert_eq!(is_elf32(&[0x7f, b'E', b'L', b'F', 3, 1]), Ok(false));
    assert_eq!(is_elf32(&[0x7f, b'E', b'L', b'F', 255, 0]), Ok(false));
}

#[test]
fn sixth_byte_does_not_matter() {
    assert_eq!(is_elf32(&[0x7f, b'E', b'L', b'F', 1, 0]), Ok(true));
    assert_eq!(is_elf32(&[0x7f, b'E', b'L', b'F', 1, 2]), Ok(true));
}

#[test]
fn header_without_magic_is_io_error() {
    assert_eq!(is_elf32(b"#!/bin"), Err(LaunchError::Io));
    assert_eq!(is_elf32(b"#!/bin/sh\n"), Err(LaunchError::Io));
    assert_eq!(is_elf32(&[0x7f, b'E', b'L', b'G', 1, 1]), Err(LaunchError::Io));
    assert_eq!(is_elf32(&[0x7e, b'E', b'L', b'F', 1, 1]), Err(LaunchError::Io));
    assert_eq!(is_elf32(&[0, 0, 0, 0, 2, 0]), Err(LaunchError::Io));
}

#[test]
fn short_header_is_io_error() {
    assert_eq!(is_elf32(&[]), Err(LaunchError::Io));
    assert_eq!(is_elf32(&[0x7f, b'E', b'L', b'F', 1]), Err(LaunchError::Io));
}

#[test]
fn longer_header_is_read_by_its_first_six_bytes() {
    assert_eq!(is_elf32(&[0x7f, b'E', b'L', b'F', 1, 1, 1, 0, 0]), Ok(true));
}

#[test]
fn header_constants() {
    assert_eq!(HEADER_LEN, 6);
    assert_eq!(ELFCLASS32, 1);
}
