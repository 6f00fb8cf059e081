use kernel_core::memfs::{MemFile, MemFs, MAX_FILES, MAX_FILE_SIZE};
use kernel_core::vfs::{
    text_or_empty, FileMetadata, FilePermissions, FileType, VfsError, VfsMount, MAX_FILENAME,
    MAX_PATH,
};

#[test]
fn permission_presets() {
    let p = FilePermissions::new(false, true, true);
    assert!(!p.read && p.write && p.execute);
    assert_eq!(
        FilePermissions::readonly(),
        FilePermissions { read: true, write: false, execute: false }
    );
    assert_eq!(
        FilePermissions::readwrite(),
        FilePermissions { read: true, write: true, execute: false }
    );
    assert_eq!(
        FilePermissions::executable(),
        FilePermissions { read: true, write: false, execute: true }
    );
}

#[test]
fn metadata_kinds() {
    let d = FileMetadata::new(FileType::Directory, FilePermissions::readonly(), 0, 3);
    assert!(d.is_dir());
    assert!(!d.is_file());
    assert_eq!(d.inode, 3);
    let f = FileMetadata::new(FileType::Regular, FilePermissions::readwrite(), 12, 4);
    assert!(f.is_file());
    assert!(!f.is_dir());
    assert_eq!(f.size, 12);
    let s = FileMetadata::new(FileType::SymLink, FilePermissions::readwrite(), 0, 5);
    assert!(!s.is_file() && !s.is_dir());
}

#[test]
fn error_messages() {
    assert_eq!(VfsError::NotFound.message(), "file not found");
    assert_eq!(VfsError::PermissionDenied.message(), "permission denied");
    assert_eq!(VfsError::AlreadyExists.message(), "file already exists");
    assert_eq!(VfsError::NotDirectory.message(), "not a directory");
    assert_eq!(VfsError::IsDirectory.message(), "is a directory");
    assert_eq!(VfsError::InvalidPath.message(), "invalid path");
    assert_eq!(VfsError::OutOfSpace.message(), "out of space");
    assert_eq!(VfsError::IoError.message(), "io error");
}

#[test]
fn file_type_codes() {
    assert_eq!(FileType::from_code(0), Some(FileType::Regular));
    assert_eq!(FileType::from_code(1), Some(FileType::Directory));
    assert_eq!(FileType::from_code(2), None);
}

#[test]
fn mount_point() {
    let mut m = VfsMount::new();
    assert_eq!(m.path(), "");
    assert_eq!(m.mount("/mnt/data"), Ok(()));
    assert_eq!(m.path(), "/mnt/data");
    let long = "a".repeat(MAX_PATH);
    assert_eq!(m.mount(&long), Err(VfsError::InvalidPath));
    assert_eq!(m.path(), "/mnt/data");
    let fits = "b".repeat(MAX_PATH - 1);
    assert_eq!(m.mount(&fits), Ok(()));
    assert_eq!(m.path().len(), MAX_PATH - 1);
}

#[test]
fn text_of_invalid_bytes_is_empty() {
    assert_eq!(text_or_empty(b"ok"), "ok");
    assert_eq!(text_or_empty(&[0xff, 0xfe]), "");
}

#[test]
fn mem_file_read_write() {
    let mut f = MemFile::new("notes", FileType::Regular, FilePermissions::readwrite());
    assert_eq!(f.name_str(), "notes");
    assert_eq!(f.metadata().size, 0);
    assert_eq!(f.write(b"hello", 0), Ok(5));
    assert_eq!(f.metadata().size, 5);
    let mut buf = [9u8; 8];
    assert_eq!(f.read(&mut buf, 0), Ok(5));
    assert_eq!(&buf, b"hello\x09\x09\x09");
    let mut small = [0u8; 2];
    assert_eq!(f.read(&mut small, 3), Ok(2));
    assert_eq!(&small, b"lo");
    assert_eq!(f.read(&mut buf, 5), Ok(0));
    assert_eq!(f.read(&mut buf, 100), Ok(0));
    // a write past the end leaves a zero gap
    assert_eq!(f.write(b"ab", 7), Ok(2));
    assert_eq!(f.metadata().size, 9);
    let mut all = [7u8; 9];
    assert_eq!(f.read(&mut all, 0), Ok(9));
    assert_eq!(&all, b"hello\0\0ab");
    assert_eq!(f.write(b"J", 0), Ok(1));
    assert_eq!(f.metadata().size, 9);
}

#[test]
fn mem_file_write_errors() {
    let mut f = MemFile::new("f", FileType::Regular, FilePermissions::readwrite());
    assert_eq!(f.write(&[1u8; MAX_FILE_SIZE], 0), Ok(MAX_FILE_SIZE));
    assert_eq!(f.write(b"x", MAX_FILE_SIZE as u64), Err(VfsError::OutOfSpace));
    assert_eq!(f.write(b"xy", (MAX_FILE_SIZE - 1) as u64), Err(VfsError::OutOfSpace));
    assert_eq!(f.write(b"x", u64::MAX), Err(VfsError::OutOfSpace));
    let mut ro = MemFile::new("r", FileType::Regular, FilePermissions::readonly());
    assert_eq!(ro.write(b"x", 0), Err(VfsError::PermissionDenied));
    let mut d = MemFile::new("d", FileType::Directory, FilePermissions::readwrite());
    assert_eq!(d.write(b"x", 0), Err(VfsError::IsDirectory));
    let mut buf = [0u8; 4];
    assert_eq!(d.read(&mut buf, 0), Err(VfsError::IsDirectory));
}

#[test]
fn mem_file_name_truncated() {
    let long = "n".repeat(300);
    let f = MemFile::new(&long, FileType::Regular, FilePermissions::readwrite());
    assert_eq!(f.name_str().len(), MAX_FILENAME);
    // a cut through a multi-byte character leaves bytes that do not read as text
    let wide = format!("{}é", "x".repeat(MAX_FILENAME - 1));
    let g = MemFile::new(&wide, FileType::Regular, FilePermissions::readwrite());
    assert_eq!(g.name_str(), "");
}

#[test]
fn mem_fs_create_lookup_remove() {
    let mut fs = MemFs::new();
    assert_eq!(fs.create("a.txt", FileType::Regular), Ok(()));
    assert_eq!(fs.create("dir", FileType::Directory), Ok(()));
    assert_eq!(fs.create("a.txt", FileType::Regular), Err(VfsError::AlreadyExists));
    assert_eq!(fs.find_file("a.txt"), Some(0));
    assert_eq!(fs.find_file("dir"), Some(1));
    assert_eq!(fs.find_file("nope"), None);
    let d = fs.lookup("dir").unwrap();
    assert!(d.metadata().is_dir());
    assert_eq!(d.metadata().permissions, FilePermissions::readonly());
    let f = fs.lookup("a.txt").unwrap();
    assert_eq!(f.metadata().permissions, FilePermissions::readwrite());
    assert!(matches!(fs.lookup("nope"), Err(VfsError::NotFound)));
    assert_eq!(fs.remove("a.txt"), Ok(()));
    assert_eq!(fs.remove("a.txt"), Err(VfsError::NotFound));
    assert_eq!(fs.create("b", FileType::Regular), Ok(()));
    assert_eq!(fs.find_file("b"), Some(0));
    assert!(matches!(fs.list(), Err(VfsError::IoError)));
}

#[test]
fn mem_fs_capacity() {
    let mut fs = MemFs::new();
    for k in 0..MAX_FILES {
        assert_eq!(fs.create(&format!("f{}", k), FileType::Regular), Ok(()));
    }
    assert_eq!(fs.create("extra", FileType::Regular), Err(VfsError::OutOfSpace));
    assert_eq!(fs.create("f3", FileType::Regular), Err(VfsError::AlreadyExists));
}

#[test]
fn mem_fs_raw_operations() {
    let mut fs = MemFs::new();
    assert_eq!(fs.create_raw(b"log", 0), 0);
    assert_eq!(fs.create_raw(b"log", 0), -1);
    assert_eq!(fs.create_raw(b"etc", 1), 0);
    assert_eq!(fs.create_raw(b"dev", 2), -1);
    assert_eq!(fs.create_raw(&[0xc3], 0), -1);
    assert_eq!(fs.write_raw(b"log", b"boot ok"), 7);
    assert_eq!(fs.write_raw(b"etc", b"x"), -1);
    assert_eq!(fs.write_raw(b"missing", b"x"), -1);
    assert_eq!(fs.write_raw(&[0xff], b"x"), -1);
    let mut buf = [0u8; 4];
    assert_eq!(fs.read_raw(b"log", &mut buf), 4);
    assert_eq!(&buf, b"boot");
    let mut big = [1u8; 16];
    assert_eq!(fs.read_raw(b"log", &mut big), 7);
    assert_eq!(&big[..8], b"boot ok\x01");
    assert_eq!(fs.read_raw(b"etc", &mut buf), -1);
    assert_eq!(fs.read_raw(b"missing", &mut buf), -1);
    // a shorter write keeps the tail of the earlier contents
    assert_eq!(fs.write_raw(b"log", b"BO"), 2);
    assert_eq!(fs.read_raw(b"log", &mut big), 7);
    assert_eq!(&big[..7], b"BOot ok");
}
