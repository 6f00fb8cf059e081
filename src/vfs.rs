//! File-system vocabulary shared by the in-memory file table: file kinds,
//! permissions, metadata, errors and the mount point.

use vstd::prelude::*;
use vstd::string::StringSliceAdditionalSpecFns;
use vstd::utf8::valid_utf8;

verus! {

/// Longest file name kept, in bytes.
pub const MAX_FILENAME: usize = 255;

/// Bytes available for a mount path (the path itself must be shorter).
pub const MAX_PATH: usize = 4096;

#[derive(Clone, Copy, Debug, PartialEq, Eq, Structural)]
pub enum FileType {
    Regular,
    Directory,
    CharDevice,
    BlockDevice,
    SymLink,
}

/// The file kind a wire code stands for: 0 regular, 1 directory, no other.
pub open spec fn file_type_of_code(code: u8) -> Option<FileType> {
    if code == 0 {
        Some(FileType::Regular)
    } else if code == 1 {
        Some(FileType::Directory)
    } else {
        None
    }
}

impl FileType {
    /// Decodes a wire code; only regular files and directories have one.
    pub fn from_code(code: u8) -> (r: Option<FileType>)
        ensures
            r == file_type_of_code(code),
    {
        match code {
            0 => Some(FileType::Regular),
            1 => Some(FileType::Directory),
            _ => None,
        }
    }
}

#[derive(Clone, Copy, Debug, PartialEq, Eq, Structural)]
pub struct FilePermissions {
    pub read: bool,
    pub write: bool,
    pub execute: bool,
}

impl FilePermissions {
    pub fn new(read: bool, write: bool, execute: bool) -> (r: FilePermissions)
        ensures
            r == (FilePermissions { read, write, execute }),
    {
        FilePermissions { read, write, execute }
    }

    pub fn readonly() -> (r: FilePermissions)
        ensures
            r == (FilePermissions { read: true, write: false, execute: false }),
    {
        FilePermissions::new(true, false, false)
    }

    pub fn readwrite() -> (r: FilePermissions)
        ensures
            r == (FilePermissions { read: true, write: true, execute: false }),
    {
        FilePermissions::new(true, true, false)
    }

    pub fn executable() -> (r: FilePermissions)
        ensures
            r == (FilePermissions { read: true, write: false, execute: true }),
    {
        FilePermissions::new(true, false, true)
    }
}

#[derive(Clone, Copy, Debug, PartialEq, Eq, Structural)]
pub struct FileMetadata {
    pub file_type: FileType,
    pub permissions: FilePermissions,
    pub size: u64,
    pub inode: u32,
}

impl FileMetadata {
    pub fn new(file_type: FileType, permissions: FilePermissions, size: u64, inode: u32) -> (r:
        FileMetadata)
        ensures
            r == (FileMetadata { file_type, permissions, size, inode }),
    {
        FileMetadata { file_type, permissions, size, inode }
    }

    pub fn is_dir(&self) -> (r: bool)
        ensures
            r == (self.file_type == FileType::Directory),
    {
        self.file_type == FileType::Directory
    }

    pub fn is_file(&self) -> (r: bool)
        ensures
            r == (self.file_type == FileType::Regular),
    {
        self.file_type == FileType::Regular
    }
}

#[derive(Clone, Copy, Debug, PartialEq, Eq, Structural)]
pub enum VfsError {
    NotFound,
    PermissionDenied,
    AlreadyExists,
    NotDirectory,
    IsDirectory,
    InvalidPath,
    OutOfSpace,
    IoError,
}

/// The text that describes each error.
pub open spec fn error_text(e: VfsError) -> Seq<char> {
    match e {
        VfsError::NotFound => "file not found"@,
        VfsError::PermissionDenied => "permission denied"@,
        VfsError::AlreadyExists => "file already exists"@,
        VfsError::NotDirectory => "not a directory"@,
        VfsError::IsDirectory => "is a directory"@,
        VfsError::InvalidPath => "invalid path"@,
        VfsError::OutOfSpace => "out of space"@,
        VfsError::IoError => "io error"@,
    }
}

impl VfsError {
    /// A short description of the error, for messages.
    pub fn message(&self) -> (r: &'static str)
        ensures
            r@ == error_text(*self),
    {
        match self {
            VfsError::NotFound => "file not found",
            VfsError::PermissionDenied => "permission denied",
            VfsError::AlreadyExists => "file already exists",
            VfsError::NotDirectory => "not a directory",
            VfsError::IsDirectory => "is a directory",
            VfsError::InvalidPath => "invalid path",
            VfsError::OutOfSpace => "out of space",
            VfsError::IoError => "io error",
        }
    }
}

pub type VfsResult<T> = Result<T, VfsError>;

/// The text that a byte string reads as: itself when it is valid UTF-8,
/// else empty.
pub open spec fn text_bytes(b: Seq<u8>) -> Seq<u8> {
    if valid_utf8(b) {
        b
    } else {
        Seq::empty()
    }
}

/// Relies on core::str::from_utf8: it accepts exactly the valid UTF-8 byte
/// strings and hands back a `str` over the same bytes.
#[verifier::external_body]
pub(crate) fn utf8_text(bytes: &[u8]) -> (r: Option<&str>)
    ensures
        r.is_some() <==> valid_utf8(bytes@),
        r.is_some() ==> r.unwrap().spec_bytes() == bytes@,
{
    core::str::from_utf8(bytes).ok()
}

/// Reads `bytes` as text; bytes that are not valid UTF-8 read as the empty
/// string.
pub fn text_or_empty(bytes: &[u8]) -> (r: &str)
    ensures
        r.spec_bytes() == text_bytes(bytes@),
{
    match utf8_text(bytes) {
        Some(s) => s,
        None => {
            let e = "";
            proof {
                reveal_strlit("");
            }
            assert(e.spec_bytes() =~= Seq::<u8>::empty());
            e
        },
    }
}

/// Where the file system is mounted.
pub struct VfsMount {
    mount_point: [u8; MAX_PATH],
    mount_point_len: usize,
}

impl View for VfsMount {
    type V = Seq<u8>;

    /// The bytes of the mount path.
    closed spec fn view(&self) -> Seq<u8> {
        self.mount_point@.take(self.mount_point_len as int)
    }
}

impl VfsMount {
    pub closed spec fn wf(&self) -> bool {
        self.mount_point_len < MAX_PATH
    }

    /// Mounted nowhere yet: the path is empty.
    pub fn new() -> (r: VfsMount)
        ensures
            r.wf(),
            r@ == Seq::<u8>::empty(),
    {
        let r = VfsMount { mount_point: [0u8; MAX_PATH], mount_point_len: 0 };
        assert(r@ =~= Seq::<u8>::empty());
        r
    }

    /// Records `path` as the mount point; `InvalidPath`, changing nothing,
    /// when it takes `MAX_PATH` bytes or more.
    pub fn mount(&mut self, path: &str) -> (r: VfsResult<()>)
        requires
            old(self).wf(),
        ensures
            final(self).wf(),
            r is Ok <==> path.spec_bytes().len() < MAX_PATH,
            r is Ok ==> final(self)@ == path.spec_bytes(),
            r is Err ==> r == Err::<(), VfsError>(VfsError::InvalidPath) && final(self)@ == old(self)@,
    {
        let bytes = path.as_bytes();
        if bytes.len() >= MAX_PATH {
            return Err(VfsError::InvalidPath);
        }
        let mut k: usize = 0;
        while k < bytes.len()
            invariant
                bytes@ == path.spec_bytes(),
                bytes@.len() < MAX_PATH,
                k <= bytes@.len(),
                forall|m: int| 0 <= m < k ==> self.mount_point@[m] == bytes@[m],
            decreases bytes@.len() - k,
        {
            self.mount_point[k] = bytes[k];
            k = k + 1;
        }
        self.mount_point_len = bytes.len();
        assert(self@ =~= path.spec_bytes());
        Ok(())
    }

    /// The mount path as text (empty if the stored bytes are not valid UTF-8).
    pub fn path(&self) -> (r: &str)
        requires
            self.wf(),
        ensures
            r.spec_bytes() == text_bytes(self@),
    {
        let stored = vstd::slice::slice_subrange(self.mount_point.as_slice(), 0, self.mount_point_len);
        text_or_empty(stored)
    }
}

} // verus!
