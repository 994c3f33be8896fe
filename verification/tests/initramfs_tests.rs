use veos::file_handle::{FileError, FileHandle, SeekFrom};
use veos::initramfs::{get_file_iterator, initramfs_valid, magic, open, read_u64_big_endian};
use veos::mkinitramfs::{build_image, InitramfsFile};

fn file(name: &[u8], content: &[u8]) -> InitramfsFile {
    InitramfsFile { name: name.to_vec(), content: content.to_vec() }
}

fn sample_image() -> Vec<u8> {
    build_image(&vec![file(b"init", b"hello world"), file(b"etc/motd", b"welcome"), file(b"empty", b"")])
}

#[test]
fn built_image_starts_with_magic_and_count() {
    let image = sample_image();
    assert_eq!(&image[0..8], &magic()[..]);
    // The file count is written big endian, most significant byte first.
    assert_eq!(&image[8..16], &[0, 0, 0, 0, 0, 0, 0, 3]);
    assert_eq!(read_u64_big_endian(&image, 8), 3);
    assert!(initramfs_valid(&image));
}

#[test]
fn open_finds_written_file() {
    let image = sample_image();
    let mut fd = open(&image, "etc/motd").unwrap();
    assert_eq!(fd.len(), 7);
    let mut buffer = [0u8; 7];
    assert!(fd.read(&mut buffer).is_ok());
    assert_eq!(&buffer, b"welcome");
}

#[test]
fn open_missing_file_is_not_found() {
    let image = sample_image();
    assert_eq!(open(&image, "missing").err(), Some(FileError::FileNotFound));
}

#[test]
fn open_on_bad_magic_is_invalid_filesystem() {
    let mut image = sample_image();
    image[0] = b'X';
    assert!(!initramfs_valid(&image));
    assert_eq!(open(&image, "init").err(), Some(FileError::InvalidFilesystem));
    assert_eq!(get_file_iterator(&image).err(), Some(FileError::InvalidFilesystem));
}

#[test]
fn file_with_invalid_utf8_name_is_skipped() {
    let image = build_image(&vec![file(&[0xff, 0xfe], b"bad"), file(b"ok", b"good")]);
    let mut iterator = get_file_iterator(&image).unwrap();
    let first = iterator.next(&image).unwrap();
    // Only the file with a valid name is listed.
    assert_eq!(first.name_length, 2);
    assert_eq!(&image[first.name_offset as usize..(first.name_offset + first.name_length) as usize], b"ok");
    assert!(iterator.next(&image).is_none());
    assert!(open(&image, "ok").is_ok());
}

#[test]
fn empty_file_opens_with_length_zero() {
    let image = sample_image();
    let mut fd = open(&image, "empty").unwrap();
    assert_eq!(fd.len(), 0);
    let mut buffer = [0u8; 1];
    assert_eq!(fd.read(&mut buffer), Err(FileError::SeekPastEnd));
}

#[test]
fn seek_moves_within_file() {
    let image = sample_image();
    let mut fd = open(&image, "init").unwrap();
    assert_eq!(fd.seek(SeekFrom::Start(6)), Ok(6));
    let mut buffer = [0u8; 5];
    assert!(fd.read(&mut buffer).is_ok());
    assert_eq!(&buffer, b"world");
    assert_eq!(fd.seek(SeekFrom::End(-5)), Ok(6));
    assert_eq!(fd.seek(SeekFrom::Current(-6)), Ok(0));
    assert_eq!(fd.current_offset(), 0);
}

#[test]
fn seek_before_start_is_refused() {
    let image = sample_image();
    let mut fd = open(&image, "init").unwrap();
    assert_eq!(fd.seek(SeekFrom::Current(-1)), Err(FileError::SeekBeforeStart));
    assert_eq!(fd.seek(SeekFrom::End(-12)), Err(FileError::SeekBeforeStart));
    assert_eq!(fd.seek(SeekFrom::End(i64::MIN)), Err(FileError::SeekBeforeStart));
    assert_eq!(fd.current_offset(), 0);
}

#[test]
fn seek_past_end_is_refused() {
    let image = sample_image();
    let mut fd = open(&image, "init").unwrap();
    assert_eq!(fd.seek(SeekFrom::Start(12)), Err(FileError::SeekPastEnd));
    assert_eq!(fd.seek(SeekFrom::End(1)), Err(FileError::SeekPastEnd));
    assert_eq!(fd.seek(SeekFrom::Start(11)), Ok(11));
    assert_eq!(fd.seek(SeekFrom::Current(1)), Err(FileError::SeekPastEnd));
}

#[test]
fn read_at_reads_from_position() {
    let image = sample_image();
    let mut fd = open(&image, "init").unwrap();
    let mut buffer = [0u8; 3];
    assert!(fd.read_at(&mut buffer, 2).is_ok());
    assert_eq!(&buffer, b"llo");
    assert_eq!(fd.current_offset(), 2);
    assert_eq!(fd.read_at(&mut buffer, 10), Err(FileError::SeekPastEnd));
    assert_eq!(fd.read_at(&mut buffer, 20), Err(FileError::SeekPastEnd));
}

#[test]
fn len_keeps_offset() {
    let image = sample_image();
    let mut fd = open(&image, "init").unwrap();
    fd.seek(SeekFrom::Start(4)).unwrap();
    assert_eq!(fd.len(), 11);
    assert_eq!(fd.current_offset(), 4);
}

#[test]
fn first_of_two_files_with_same_name_is_opened() {
    let image = build_image(&vec![file(b"a", b"first"), file(b"a", b"second")]);
    let mut fd = open(&image, "a").unwrap();
    assert_eq!(fd.len(), 5);
}
