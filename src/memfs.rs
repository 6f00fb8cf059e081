//! In-memory file table: a fixed number of files, each with a fixed-size
//! byte buffer, looked up by name.

use vstd::prelude::*;
use vstd::string::StringSliceAdditionalSpecFns;
use vstd::utf8::valid_utf8;

use crate::occupancy::{count_set, lemma_count_set_bound, lemma_count_set_full_inv, lemma_count_set_update, lemma_count_set_zero};
use crate::vfs::{file_type_of_code, text_bytes, text_or_empty, utf8_text, FileMetadata, FilePermissions, FileType, VfsError, VfsResult, MAX_FILENAME};

verus! {

/// Slots in the file table.
pub const MAX_FILES: usize = 64;

/// Largest file, in bytes.
pub const MAX_FILE_SIZE: usize = 4096;

/// What a file holds: its stored name, its metadata and its contents.
pub struct MemFileView {
    pub name: Seq<u8>,
    pub metadata: FileMetadata,
    pub data: Seq<u8>,
}

/// The stored form of a name: at most its first `MAX_FILENAME` bytes.
pub open spec fn stored_file_name(name: Seq<u8>) -> Seq<u8> {
    if name.len() <= MAX_FILENAME {
        name
    } else {
        name.take(MAX_FILENAME as int)
    }
}

/// Contents `d` after `b` is written at `off`: a gap before `off` reads as zeros.
pub open spec fn overwritten(d: Seq<u8>, off: int, b: Seq<u8>) -> Seq<u8> {
    let n = if d.len() >= off + b.len() {
        d.len() as int
    } else {
        off + b.len()
    };
    Seq::new(
        n as nat,
        |k: int|
            if off <= k < off + b.len() {
                b[k - off]
            } else if k < d.len() {
                d[k]
            } else {
                0u8
            },
    )
}

/// Bytes that a read of `d` at `off` into a buffer of `room` bytes returns.
pub open spec fn read_count(d: Seq<u8>, off: int, room: int) -> int {
    if off >= d.len() {
        0
    } else if room <= d.len() - off {
        room
    } else {
        d.len() - off
    }
}

#[derive(Clone, Copy)]
pub struct MemFile {
    name: [u8; MAX_FILENAME],
    name_len: usize,
    metadata: FileMetadata,
    data: [u8; MAX_FILE_SIZE],
    data_len: usize,
}

impl View for MemFile {
    type V = MemFileView;

    closed spec fn view(&self) -> MemFileView {
        MemFileView {
            name: self.name@.take(self.name_len as int),
            metadata: self.metadata,
            data: self.data@.take(self.data_len as int),
        }
    }
}

impl MemFile {
    pub closed spec fn wf(&self) -> bool {
        &&& self.name_len <= MAX_FILENAME
        &&& self.data_len <= MAX_FILE_SIZE
        &&& self.metadata.size == self.data_len
        &&& forall|k: int| self.data_len <= k < MAX_FILE_SIZE ==> self.data@[k] == 0u8
    }

    /// An empty file named by the first `MAX_FILENAME` bytes of `name`.
    pub fn new(name: &str, file_type: FileType, permissions: FilePermissions) -> (r: MemFile)
        ensures
            r.wf(),
            r@ == (MemFileView {
                name: stored_file_name(name.spec_bytes()),
                metadata: FileMetadata { file_type, permissions, size: 0, inode: 0 },
                data: Seq::empty(),
            }),
    {
        let bytes = name.as_bytes();
        let name_len: usize = if bytes.len() < MAX_FILENAME {
            bytes.len()
        } else {
            MAX_FILENAME
        };
        let mut name_buf = [0u8; MAX_FILENAME];
        let mut k: usize = 0;
        while k < name_len
            invariant
                name_len <= MAX_FILENAME,
                name_len <= bytes@.len(),
                k <= name_len,
                forall|m: int| 0 <= m < k ==> name_buf@[m] == bytes@[m],
            decreases name_len - k,
        {
            name_buf[k] = bytes[k];
            k = k + 1;
        }
        let r = MemFile {
            name: name_buf,
            name_len,
            metadata: FileMetadata::new(file_type, permissions, 0, 0),
            data: [0u8; MAX_FILE_SIZE],
            data_len: 0,
        };
        assert(r@.name =~= stored_file_name(name.spec_bytes()));
        assert(r@.data =~= Seq::<u8>::empty());
        r
    }

    /// The name as text (empty if the stored bytes are not valid UTF-8).
    pub fn name_str(&self) -> (r: &str)
        requires
            self.wf(),
        ensures
            r.spec_bytes() == text_bytes(self@.name),
    {
        let stored = vstd::slice::slice_subrange(self.name.as_slice(), 0, self.name_len);
        text_or_empty(stored)
    }

    pub fn metadata(&self) -> (r: &FileMetadata)
        ensures
            *r == self@.metadata,
    {
        &self.metadata
    }

    /// Copies contents from `offset` into `buf`, as many bytes as both have
    /// room for, and returns how many; none when `offset` is at or past the
    /// end. A directory cannot be read.
    pub fn read(&self, buf: &mut [u8], offset: u64) -> (r: VfsResult<usize>)
        requires
            self.wf(),
        ensures
            final(buf)@.len() == old(buf)@.len(),
            self@.metadata.file_type == FileType::Directory ==> r == Err::<usize, VfsError>(
                VfsError::IsDirectory,
            ) && final(buf)@ == old(buf)@,
            self@.metadata.file_type != FileType::Directory ==> {
                let n = read_count(self@.data, offset as int, old(buf)@.len() as int);
                &&& r == Ok::<usize, VfsError>(n as usize)
                &&& forall|m: int| 0 <= m < n ==> final(buf)@[m] == self@.data[offset + m]
                &&& forall|m: int| n <= m < old(buf)@.len() ==> final(buf)@[m] == old(buf)@[m]
            },
    {
        if self.metadata.file_type == FileType::Directory {
            return Err(VfsError::IsDirectory);
        }
        if offset >= self.data_len as u64 {
            return Ok(0);
        }
        let off = offset as usize;
        let avail = self.data_len - off;
        let to_read: usize = if buf.len() < avail {
            buf.len()
        } else {
            avail
        };
        let ghost before = buf@;
        let mut k: usize = 0;
        while k < to_read
            invariant
                self.wf(),
                off + to_read <= self.data_len,
                to_read <= before.len(),
                buf@.len() == before.len(),
                k <= to_read,
                forall|m: int| 0 <= m < k ==> buf@[m] == self.data@[off + m],
                forall|m: int| to_read <= m < before.len() ==> buf@[m] == before[m],
            decreases to_read - k,
        {
            buf[k] = self.data[off + k];
            k = k + 1;
        }
        Ok(to_read)
    }

    /// Writes all of `buf` at `offset`, growing the file as needed, and
    /// returns the byte count. Fails with `IsDirectory` on a directory,
    /// `PermissionDenied` without write permission, and `OutOfSpace` when the
    /// write would end past `MAX_FILE_SIZE`; a failed write changes nothing.
    pub fn write(&mut self, buf: &[u8], offset: u64) -> (r: VfsResult<usize>)
        requires
            old(self).wf(),
        ensures
            final(self).wf(),
            old(self)@.metadata.file_type == FileType::Directory ==> r == Err::<usize, VfsError>(
                VfsError::IsDirectory,
            ),
            old(self)@.metadata.file_type != FileType::Directory
                && !old(self)@.metadata.permissions.write ==> r == Err::<usize, VfsError>(
                VfsError::PermissionDenied,
            ),
            old(self)@.metadata.file_type != FileType::Directory
                && old(self)@.metadata.permissions.write && offset + buf@.len() > MAX_FILE_SIZE
                ==> r == Err::<usize, VfsError>(VfsError::OutOfSpace),
            r is Err ==> final(self)@ == old(self)@,
            r is Ok ==> {
                let d = overwritten(old(self)@.data, offset as int, buf@);
                &&& r == Ok::<usize, VfsError>(buf@.len() as usize)
                &&& final(self)@ == (MemFileView {
                    data: d,
                    metadata: FileMetadata { size: d.len() as u64, ..old(self)@.metadata },
                    ..old(self)@
                })
            },
            r is Ok <==> (old(self)@.metadata.file_type != FileType::Directory
                && old(self)@.metadata.permissions.write && offset + buf@.len() <= MAX_FILE_SIZE),
    {
        if self.metadata.file_type == FileType::Directory {
            return Err(VfsError::IsDirectory);
        }
        if !self.metadata.permissions.write {
            return Err(VfsError::PermissionDenied);
        }
        if offset > MAX_FILE_SIZE as u64 || buf.len() > MAX_FILE_SIZE - offset as usize {
            return Err(VfsError::OutOfSpace);
        }
        let off = offset as usize;
        let ghost d0 = self@.data;
        let ghost arr0 = self.data@;
        let mut k: usize = 0;
        while k < buf.len()
            invariant
                off + buf@.len() <= MAX_FILE_SIZE,
                self.data_len == old(self).data_len,
                self.name == old(self).name,
                self.name_len == old(self).name_len,
                self.metadata == old(self).metadata,
                arr0 == old(self).data@,
                k <= buf@.len(),
                forall|m: int|
                    0 <= m < MAX_FILE_SIZE ==> self.data@[m] == (if off <= m < off + k {
                        buf@[m - off]
                    } else {
                        arr0[m]
                    }),
            decreases buf@.len() - k,
        {
            self.data[off + k] = buf[k];
            k = k + 1;
        }
        let end = off + buf.len();
        if end > self.data_len {
            self.data_len = end;
        }
        self.metadata.size = self.data_len as u64;
        let ghost d = overwritten(d0, off as int, buf@);
        assert(self@.data =~= d);
        Ok(buf.len())
    }
}

/// Whether two byte strings are equal.
fn bytes_equal(a: &[u8], b: &[u8]) -> (r: bool)
    ensures
        r == (a@ == b@),
{
    if a.len() != b.len() {
        return false;
    }
    let mut k: usize = 0;
    while k < a.len()
        invariant
            a@.len() == b@.len(),
            k <= a@.len(),
            forall|m: int| 0 <= m < k ==> a@[m] == b@[m],
        decreases a@.len() - k,
    {
        if a[k] != b[k] {
            return false;
        }
        k = k + 1;
    }
    assert(a@ =~= b@);
    true
}

/// Slot `i` holds a file whose name reads as `name`.
pub open spec fn names(s: Seq<Option<MemFileView>>, i: int, name: Seq<u8>) -> bool {
    s[i].is_some() && text_bytes(s[i].unwrap().name) == name
}

/// `i` is the earliest slot holding a file whose name reads as `name`.
pub open spec fn first_named(s: Seq<Option<MemFileView>>, name: Seq<u8>, i: int) -> bool {
    &&& 0 <= i < s.len()
    &&& names(s, i, name)
    &&& forall|j: int| 0 <= j < i ==> !names(s, j, name)
}

/// Some slot holds a file whose name reads as `name`.
pub open spec fn has_named(s: Seq<Option<MemFileView>>, name: Seq<u8>) -> bool {
    exists|i: int| 0 <= i < s.len() && names(s, i, name)
}

/// `i` is the earliest empty slot.
pub open spec fn first_vacant(s: Seq<Option<MemFileView>>, i: int) -> bool {
    &&& 0 <= i < s.len()
    &&& s[i].is_none()
    &&& forall|j: int| 0 <= j < i ==> s[j].is_some()
}

/// Which slots hold a file.
pub open spec fn holds_file(s: Seq<Option<MemFileView>>) -> Seq<bool> {
    Seq::new(s.len(), |i: int| s[i].is_some())
}

/// Permissions a new file gets: directories read-only, the rest read-write.
pub open spec fn default_permissions(t: FileType) -> FilePermissions {
    if t == FileType::Directory {
        FilePermissions { read: true, write: false, execute: false }
    } else {
        FilePermissions { read: true, write: true, execute: false }
    }
}

pub struct MemFs {
    files: [Option<MemFile>; MAX_FILES],
    file_count: usize,
}

impl View for MemFs {
    type V = Seq<Option<MemFileView>>;

    closed spec fn view(&self) -> Seq<Option<MemFileView>> {
        Seq::new(
            MAX_FILES as nat,
            |i: int|
                match self.files@[i] {
                    Some(f) => Some(f@),
                    None => None,
                },
        )
    }
}

impl MemFs {
    pub closed spec fn wf(&self) -> bool {
        &&& self.file_count == count_set(holds_file(self@))
        &&& forall|i: int|
            0 <= i < MAX_FILES && #[trigger] self.files@[i].is_some() ==> self.files@[i].unwrap().wf()
    }

    /// A table with no files.
    pub fn new() -> (r: MemFs)
        ensures
            r.wf(),
            r@.len() == MAX_FILES,
            forall|i: int| 0 <= i < MAX_FILES ==> r@[i].is_none(),
    {
        let r = MemFs { files: [None; MAX_FILES], file_count: 0 };
        proof {
            lemma_count_set_zero(holds_file(r@));
        }
        r
    }

    /// The earliest slot holding a file whose name reads as `name`, if any.
    pub fn find_file(&self, name: &str) -> (r: Option<usize>)
        requires
            self.wf(),
        ensures
            r.is_none() <==> !has_named(self@, name.spec_bytes()),
            r.is_some() ==> first_named(self@, name.spec_bytes(), r.unwrap() as int),
    {
        let wanted = name.as_bytes();
        let mut idx: usize = 0;
        while idx < MAX_FILES
            invariant
                self.wf(),
                wanted@ == name.spec_bytes(),
                idx <= MAX_FILES,
                forall|j: int| 0 <= j < idx ==> !names(self@, j, name.spec_bytes()),
            decreases MAX_FILES - idx,
        {
            match &self.files[idx] {
                Some(f) => {
                    let shown = f.name_str();
                    if bytes_equal(shown.as_bytes(), wanted) {
                        assert(self@[idx as int] == Some(f@));
                        assert(names(self@, idx as int, name.spec_bytes()));
                        return Some(idx);
                    }
                    assert(self@[idx as int] == Some(f@));
                },
                None => {},
            }
            idx = idx + 1;
        }
        None
    }

    /// The file whose name reads as `name`; `NotFound` when there is none.
    pub fn lookup(&self, name: &str) -> (r: VfsResult<&MemFile>)
        requires
            self.wf(),
        ensures
            r is Err <==> !has_named(self@, name.spec_bytes()),
            r is Err ==> r == Err::<&MemFile, VfsError>(VfsError::NotFound),
            r is Ok ==> r.unwrap().wf() && exists|i: int|
                first_named(self@, name.spec_bytes(), i) && self@[i] == Some(r.unwrap()@),
    {
        match self.find_file(name) {
            Some(idx) => match &self.files[idx] {
                Some(f) => Ok(f),
                None => Err(VfsError::NotFound),
            },
            None => Err(VfsError::NotFound),
        }
    }

    /// Adds an empty file of `file_type` named `name` in the first empty
    /// slot; directories are read-only, other files read-write. Fails with
    /// `AlreadyExists` when a file of that name exists and with `OutOfSpace`
    /// when the table is full; a failure changes nothing.
    pub fn create(&mut self, name: &str, file_type: FileType) -> (r: VfsResult<()>)
        requires
            old(self).wf(),
        ensures
            final(self).wf(),
            has_named(old(self)@, name.spec_bytes()) ==> r == Err::<(), VfsError>(
                VfsError::AlreadyExists,
            ),
            !has_named(old(self)@, name.spec_bytes()) && (forall|i: int|
                0 <= i < MAX_FILES ==> old(self)@[i].is_some()) ==> r == Err::<(), VfsError>(
                VfsError::OutOfSpace,
            ),
            r is Err ==> final(self)@ == old(self)@,
            r is Err ==> has_named(old(self)@, name.spec_bytes()) || (forall|i: int|
                0 <= i < MAX_FILES ==> old(self)@[i].is_some()),
            r is Ok ==> exists|i: int|
                first_vacant(old(self)@, i) && final(self)@ == old(self)@.update(
                    i,
                    Some(
                        MemFileView {
                            name: stored_file_name(name.spec_bytes()),
                            metadata: FileMetadata {
                                file_type,
                                permissions: default_permissions(file_type),
                                size: 0,
                                inode: 0,
                            },
                            data: Seq::empty(),
                        },
                    ),
                ),
    {
        if self.find_file(name).is_some() {
            return Err(VfsError::AlreadyExists);
        }
        let ghost before = self@;
        if self.file_count >= MAX_FILES {
            proof {
                lemma_count_set_bound(holds_file(before));
                assert forall|i: int| 0 <= i < MAX_FILES implies before[i].is_some() by {
                    lemma_count_set_full_inv(holds_file(before), i);
                }
            }
            return Err(VfsError::OutOfSpace);
        }
        let permissions = match file_type {
            FileType::Directory => FilePermissions::readonly(),
            _ => FilePermissions::readwrite(),
        };
        let mut idx: usize = 0;
        while idx < MAX_FILES
            invariant
                self.wf(),
                self@ == old(self)@,
                self.file_count < MAX_FILES,
                before == old(self)@,
                permissions == default_permissions(file_type),
                !has_named(before, name.spec_bytes()),
                idx <= MAX_FILES,
                forall|j: int| 0 <= j < idx ==> before[j].is_some(),
            decreases MAX_FILES - idx,
        {
            if self.files[idx].is_none() {
                let f = MemFile::new(name, file_type, permissions);
                self.files[idx] = Some(f);
                proof {
                    assert(self@ =~= before.update(idx as int, Some(f@)));
                    assert(holds_file(self@) =~= holds_file(before).update(idx as int, true));
                    lemma_count_set_update(holds_file(before), idx as int, true);
                    assert(first_vacant(before, idx as int));
                }
                self.file_count = self.file_count + 1;
                return Ok(());
            }
            idx = idx + 1;
        }
        Err(VfsError::OutOfSpace)
    }

    /// Deletes the file whose name reads as `name`; `NotFound`, changing
    /// nothing, when there is none.
    pub fn remove(&mut self, name: &str) -> (r: VfsResult<()>)
        requires
            old(self).wf(),
        ensures
            final(self).wf(),
            r is Err <==> !has_named(old(self)@, name.spec_bytes()),
            r is Err ==> r == Err::<(), VfsError>(VfsError::NotFound) && final(self)@ == old(self)@,
            r is Ok ==> exists|i: int|
                first_named(old(self)@, name.spec_bytes(), i) && final(self)@ == old(self)@.update(
                    i,
                    None,
                ),
    {
        match self.find_file(name) {
            Some(idx) => {
                let ghost before = self@;
                self.files[idx] = None;
                proof {
                    assert(self@ =~= before.update(idx as int, None));
                    assert(holds_file(self@) =~= holds_file(before).update(idx as int, false));
                    lemma_count_set_update(holds_file(before), idx as int, false);
                }
                self.file_count = self.file_count - 1;
                Ok(())
            },
            None => Err(VfsError::NotFound),
        }
    }

    /// Listing is not offered: always `IoError`.
    pub fn list(&self) -> (r: VfsResult<&[&str]>)
        ensures
            r == Err::<&[&str], VfsError>(VfsError::IoError),
    {
        Err(VfsError::IoError)
    }

    /// Creates a file from a name given as bytes and a wire code for its
    /// type. Returns 0 on success and -1, changing nothing, when the name is
    /// not valid UTF-8, the code is unknown or the creation fails.
    pub fn create_raw(&mut self, name: &[u8], file_type: u8) -> (r: i32)
        requires
            old(self).wf(),
        ensures
            final(self).wf(),
            r == 0 || r == -1,
            r == 0 <==> (valid_utf8(name@) && file_type_of_code(file_type).is_some() && !has_named(
                old(self)@,
                name@,
            ) && exists|i: int| first_vacant(old(self)@, i)),
            r == -1 ==> final(self)@ == old(self)@,
            r == 0 ==> exists|i: int|
                first_vacant(old(self)@, i) && final(self)@ == old(self)@.update(
                    i,
                    Some(
                        MemFileView {
                            name: stored_file_name(name@),
                            metadata: FileMetadata {
                                file_type: file_type_of_code(file_type).unwrap(),
                                permissions: default_permissions(file_type_of_code(file_type).unwrap()),
                                size: 0,
                                inode: 0,
                            },
                            data: Seq::empty(),
                        },
                    ),
                ),
    {
        let text = match utf8_text(name) {
            Some(t) => t,
            None => return -1,
        };
        let ftype = match FileType::from_code(file_type) {
            Some(t) => t,
            None => return -1,
        };
        match self.create(text, ftype) {
            Ok(_) => 0,
            Err(_) => {
                proof {
                    if !has_named(old(self)@, name@) {
                        assert forall|i: int| 0 <= i < MAX_FILES implies !first_vacant(old(self)@, i) by {
                            if first_vacant(old(self)@, i) {
                                assert(old(self)@[i].is_none());
                            }
                        }
                    }
                }
                -1
            },
        }
    }

    /// Writes `data` at the start of the file whose name is given as bytes.
    /// Returns the byte count, or -1, changing nothing, when the name is not
    /// valid UTF-8, no file has it, or the write fails.
    pub fn write_raw(&mut self, name: &[u8], data: &[u8]) -> (r: i32)
        requires
            old(self).wf(),
        ensures
            final(self).wf(),
            r == -1 || r == data@.len(),
            r != -1 <==> (valid_utf8(name@) && exists|i: int|
                first_named(old(self)@, name@, i) && old(self)@[i].unwrap().metadata.file_type
                    != FileType::Directory && old(self)@[i].unwrap().metadata.permissions.write
                    && data@.len() <= MAX_FILE_SIZE),
            r == -1 ==> final(self)@ == old(self)@,
            r != -1 ==> exists|i: int|
                first_named(old(self)@, name@, i) && final(self)@ == old(self)@.update(
                    i,
                    Some(
                        MemFileView {
                            data: overwritten(old(self)@[i].unwrap().data, 0, data@),
                            metadata: FileMetadata {
                                size: overwritten(old(self)@[i].unwrap().data, 0, data@).len() as u64,
                                ..old(self)@[i].unwrap().metadata
                            },
                            ..old(self)@[i].unwrap()
                        },
                    ),
                ),
    {
        let text = match utf8_text(name) {
            Some(t) => t,
            None => return -1,
        };
        let idx = match self.find_file(text) {
            Some(i) => i,
            None => return -1,
        };
        let ghost before = self@;
        let mut file = match self.files[idx] {
            Some(f) => f,
            None => return -1,
        };
        assert(before[idx as int] == Some(file@));
        match file.write(data, 0) {
            Ok(n) => {
                self.files[idx] = Some(file);
                proof {
                    assert(self@ =~= before.update(idx as int, Some(file@)));
                    assert(holds_file(self@) =~= holds_file(before));
                }
                n as i32
            },
            Err(_) => {
                proof {
                    assert forall|i: int|
                        first_named(before, name@, i) implies !(before[i].unwrap().metadata.file_type
                        != FileType::Directory && before[i].unwrap().metadata.permissions.write
                        && data@.len() <= MAX_FILE_SIZE) by {
                        if i < idx {
                            assert(!names(before, i, name@));
                        } else if i > idx {
                            assert(!names(before, idx as int, name@));
                        }
                    }
                }
                -1
            },
        }
    }

    /// Reads the start of the file whose name is given as bytes into `buf`.
    /// Returns the byte count, or -1, leaving `buf` as it was, when the name
    /// is not valid UTF-8, no file has it, or it is a directory.
    pub fn read_raw(&self, name: &[u8], buf: &mut [u8]) -> (r: i32)
        requires
            self.wf(),
        ensures
            final(buf)@.len() == old(buf)@.len(),
            r != -1 <==> (valid_utf8(name@) && exists|i: int|
                first_named(self@, name@, i) && self@[i].unwrap().metadata.file_type
                    != FileType::Directory),
            r == -1 ==> final(buf)@ == old(buf)@,
            r != -1 ==> exists|i: int|
                first_named(self@, name@, i) && {
                    let d = self@[i].unwrap().data;
                    let n = read_count(d, 0, old(buf)@.len() as int);
                    &&& r == n
                    &&& forall|m: int| 0 <= m < n ==> final(buf)@[m] == d[m]
                    &&& forall|m: int| n <= m < old(buf)@.len() ==> final(buf)@[m] == old(buf)@[m]
                },
    {
        let text = match utf8_text(name) {
            Some(t) => t,
            None => return -1,
        };
        let idx = match self.find_file(text) {
            Some(i) => i,
            None => return -1,
        };
        match &self.files[idx] {
            Some(file) => {
                assert(self@[idx as int] == Some(file@));
                match file.read(buf, 0) {
                    Ok(n) => n as i32,
                    Err(_) => {
                        proof {
                            assert forall|i: int|
                                first_named(self@, name@, i) implies !(self@[i].unwrap().metadata.file_type
                                != FileType::Directory) by {
                                if i < idx {
                                    assert(!names(self@, i, name@));
                                } else if i > idx {
                                    assert(!names(self@, idx as int, name@));
                                }
                            }
                        }
                        -1
                    },
                }
            },
            None => -1,
        }
    }
}

} // verus!
