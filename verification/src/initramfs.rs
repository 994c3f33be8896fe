//! Reading the initramfs image.
//!
//! The image starts with the magic number `VeOSirfs`, followed by the number
//! of files as a big endian `u64`. Then, for every file, four big endian
//! `u64`s follow: the offset and the length of its name and the offset and
//! the length of its content, all offsets counted from the start of the
//! image.

use vstd::prelude::*;
use vstd::utf8::valid_utf8;
use vstd::string::StringSliceAdditionalSpecFns;
use crate::file_handle::{FileError, FileHandle, SeekFrom, seek_target, spec_seek};

verus! {

/// The size of the magic number plus the file count.
pub const HEADER_SIZE: u64 = 16;

/// The size of a single metadata object within the initramfs.
pub const FILE_METADATA_SIZE: u64 = 32;

/// The magic number that identifies a VeOS initramfs: `VeOSirfs`.
pub open spec fn spec_magic() -> Seq<u8> {
    seq![86u8, 101u8, 79u8, 83u8, 105u8, 114u8, 102u8, 115u8]
}

/// Returns the magic number that identifies a VeOS initramfs.
pub fn magic() -> (r: [u8; 8])
    ensures
        r@ == spec_magic(),
{
    let r = [86u8, 101u8, 79u8, 83u8, 105u8, 114u8, 102u8, 115u8];
    assert(r@ =~= spec_magic());
    r
}

/// The value of eight bytes read as a big endian number.
pub open spec fn spec_be_u64(b: Seq<u8>) -> u64 {
    ((b[0] as u64) << 56u64) | ((b[1] as u64) << 48u64) | ((b[2] as u64) << 40u64) | ((b[3] as u64) << 32u64)
        | ((b[4] as u64) << 24u64) | ((b[5] as u64) << 16u64) | ((b[6] as u64) << 8u64) | (b[7] as u64)
}

/// The big endian number stored at `offset` in the image.
pub open spec fn be_at(image: Seq<u8>, offset: int) -> u64 {
    spec_be_u64(image.subrange(offset, offset + 8))
}

/// The first `k` bytes of `b` or-ed in at their big endian places.
pub open spec fn be_prefix(b: Seq<u8>, k: int) -> u64
    decreases k,
{
    if k <= 0 {
        0
    } else {
        be_prefix(b, k - 1) | ((b[k - 1] as u64) << ((8 - k) * 8) as u64)
    }
}

proof fn lemma_be_prefix_full(b: Seq<u8>)
    ensures
        be_prefix(b, 8) == spec_be_u64(b),
{
    reveal_with_fuel(be_prefix, 9);
    let (b0, b1, b2, b3) = (b[0] as u64, b[1] as u64, b[2] as u64, b[3] as u64);
    let (b4, b5, b6, b7) = (b[4] as u64, b[5] as u64, b[6] as u64, b[7] as u64);
    assert(0u64 | (b0 << 56u64) == (b0 << 56u64)) by (bit_vector);
    assert((b7 << 0u64) == b7) by (bit_vector);
}

/// Reads the big endian `u64` at the given offset of the image.
pub fn read_u64_big_endian(image: &[u8], offset: usize) -> (r: u64)
    requires
        offset + 8 <= image@.len(),
    ensures
        r == be_at(image@, offset as int),
{
    let ghost bytes = image@.subrange(offset as int, offset + 8);
    let len = image.len();
    let mut result: u64 = 0;
    let mut i: usize = 0;
    while i < 8
        invariant
            0 <= i <= 8,
            len == image@.len(),
            offset + 8 <= image@.len(),
            bytes == image@.subrange(offset as int, offset + 8),
            result == be_prefix(bytes, i as int),
        decreases 8 - i,
    {
        assert(image[offset + i] == bytes[i as int]);
        result = result | ((image[offset + i] as u64) << ((8 - i - 1) * 8) as u64);
        i = i + 1;
    }
    proof {
        lemma_be_prefix_full(bytes);
    }
    result
}

/// The number of files the image announces.
pub open spec fn file_count(image: Seq<u8>) -> u64 {
    be_at(image, 8)
}

/// The offset of the metadata of file `i`.
pub open spec fn metadata_offset(i: int) -> int {
    HEADER_SIZE + FILE_METADATA_SIZE * i
}

/// The offset of the name of file `i`.
pub open spec fn name_offset(image: Seq<u8>, i: int) -> u64 {
    be_at(image, metadata_offset(i))
}

/// The length of the name of file `i`.
pub open spec fn name_length(image: Seq<u8>, i: int) -> u64 {
    be_at(image, metadata_offset(i) + 8)
}

/// The offset of the content of file `i`.
pub open spec fn content_offset(image: Seq<u8>, i: int) -> u64 {
    be_at(image, metadata_offset(i) + 16)
}

/// The length of the content of file `i`.
pub open spec fn content_length(image: Seq<u8>, i: int) -> u64 {
    be_at(image, metadata_offset(i) + 24)
}

/// The bytes of the name of file `i`.
pub open spec fn name_bytes(image: Seq<u8>, i: int) -> Seq<u8> {
    image.subrange(name_offset(image, i) as int, name_offset(image, i) + name_length(image, i))
}

/// The image starts with the magic number.
pub open spec fn has_magic(image: Seq<u8>) -> bool {
    image.len() >= HEADER_SIZE && image.subrange(0, 8) == spec_magic()
}

/// The image holds the magic number and the metadata of all its files.
pub open spec fn spec_initramfs_valid(image: Seq<u8>) -> bool {
    &&& has_magic(image)
    &&& image.len() >= HEADER_SIZE + FILE_METADATA_SIZE * file_count(image)
}

/// Computing the size of the metadata does not overflow.
pub open spec fn header_in_range(image: Seq<u8>) -> bool {
    has_magic(image) ==> HEADER_SIZE + FILE_METADATA_SIZE * file_count(image) <= u64::MAX
}

/// Checking the bounds of file `i` does not overflow.
pub open spec fn entry_in_range(image: Seq<u8>, i: int) -> bool {
    &&& name_offset(image, i) + name_length(image, i) <= u64::MAX
    &&& name_offset(image, i) + name_length(image, i) <= image.len() ==> content_offset(image, i)
        + content_length(image, i) <= u64::MAX
}

/// Name and content of file `i` lie within the image.
pub open spec fn entry_fits(image: Seq<u8>, i: int) -> bool {
    &&& name_offset(image, i) + name_length(image, i) <= image.len()
    &&& content_offset(image, i) + content_length(image, i) <= image.len()
}

/// File `i` is one that reading the image yields: it lies within the image
/// and its name is valid UTF-8.
pub open spec fn visible(image: Seq<u8>, i: int) -> bool {
    entry_fits(image, i) && valid_utf8(name_bytes(image, i))
}

/// The index of the first file from `i` on that reading the image yields,
/// or the file count if there is none.
pub open spec fn next_visible(image: Seq<u8>, i: int) -> int
    decreases file_count(image) - i,
{
    if i >= file_count(image) {
        file_count(image) as int
    } else if visible(image, i) {
        i
    } else {
        next_visible(image, i + 1)
    }
}

/// The index of the first file from `i` on that reading the image yields
/// and that has the given name, or the file count if there is none.
pub open spec fn find_file(image: Seq<u8>, name: Seq<u8>, i: int) -> int
    decreases file_count(image) - i,
{
    if i >= file_count(image) {
        file_count(image) as int
    } else if visible(image, i) && name_bytes(image, i) == name {
        i
    } else {
        find_file(image, name, i + 1)
    }
}

/// Every file from `from` up to and including `to` has bounds whose checks
/// do not overflow.
pub open spec fn entries_in_range(image: Seq<u8>, from: int, to: int) -> bool {
    forall|j: int| from <= j <= to && 0 <= j < file_count(image) ==> #[trigger] entry_in_range(image, j)
}

/// What opening the file with the given name yields: its content offset and
/// length, or the error.
pub open spec fn spec_open(image: Seq<u8>, name: Seq<u8>) -> Result<(u64, u64), FileError> {
    if !spec_initramfs_valid(image) {
        Err(FileError::InvalidFilesystem)
    } else {
        let i = find_file(image, name, 0);
        if i < file_count(image) {
            Ok((content_offset(image, i), content_length(image, i)))
        } else {
            Err(FileError::FileNotFound)
        }
    }
}

/// Reads the bytes as a string slice, by `core::str::from_utf8`.
///
/// The contract claims that `from_utf8` succeeds exactly on the byte
/// strings that vstd's `valid_utf8` describes as well-formed UTF-8, and that
/// the string it then gives back consists of those very bytes, as its
/// documentation says; this is not proved here.
#[verifier::external_body]
pub(crate) fn str_from_utf8(bytes: &[u8]) -> (r: Option<&str>)
    ensures
        r is Some <==> valid_utf8(bytes@),
        r matches Some(s) ==> s.spec_bytes() == bytes@,
{
    match core::str::from_utf8(bytes) {
        Ok(s) => Some(s),
        Err(_) => None,
    }
}

/// Checks whether the initramfs is valid.
pub fn initramfs_valid(image: &[u8]) -> (r: bool)
    requires
        header_in_range(image@),
    ensures
        r == spec_initramfs_valid(image@),
{
    let length = image.len() as u64;
    if length < HEADER_SIZE {
        false
    } else {
        let mut magic_ok = true;
        let expected = magic();
        let mut i: usize = 0;
        assert(image@.subrange(0, 0) =~= spec_magic().subrange(0, 0));
        while i < 8
            invariant
                0 <= i <= 8,
                image@.len() >= 16,
                expected@ == spec_magic(),
                magic_ok == (image@.subrange(0, i as int) == spec_magic().subrange(0, i as int)),
            decreases 8 - i,
        {
            if image[i] != expected[i] {
                magic_ok = false;
            }
            proof {
                if magic_ok {
                    assert(image@.subrange(0, i + 1) =~= image@.subrange(0, i as int).push(image@[i as int]));
                    assert(spec_magic().subrange(0, i + 1) =~= spec_magic().subrange(0, i as int).push(spec_magic()[i as int]));
                } else {
                    if image@.subrange(0, i + 1) == spec_magic().subrange(0, i + 1) {
                        if image[i as int] != expected[i as int] {
                            assert(image@.subrange(0, i + 1)[i as int] == spec_magic().subrange(0, i + 1)[i as int]);
                        } else {
                            assert(image@.subrange(0, i as int) =~= image@.subrange(0, i + 1).subrange(0, i as int));
                            assert(spec_magic().subrange(0, i as int) =~= spec_magic().subrange(0, i + 1).subrange(0, i as int));
                        }
                    }
                }
            }
            i = i + 1;
        }
        assert(spec_magic().subrange(0, 8) =~= spec_magic());
        let amount_of_files = read_u64_big_endian(image, 8);
        magic_ok && length >= HEADER_SIZE + FILE_METADATA_SIZE * amount_of_files
    }
}

/// Represents the metadata of a file.
#[derive(Clone, Copy, Debug, PartialEq, Eq, Structural)]
pub struct FileMetadata {
    /// The offset of the name of the file.
    pub name_offset: u64,
    /// The length of the name of the file.
    pub name_length: u64,
    /// The offset of the file data.
    pub start: u64,
    /// The length of the file.
    pub length: u64,
}

/// The metadata of file `i`.
pub open spec fn spec_metadata(image: Seq<u8>, i: int) -> FileMetadata {
    FileMetadata {
        name_offset: name_offset(image, i),
        name_length: name_length(image, i),
        start: content_offset(image, i),
        length: content_length(image, i),
    }
}

/// An iteration through the file metadata.
pub struct FileIterator {
    /// The index of the file metadata that is looked at next.
    pub current: u64,
    /// The number of files.
    pub count: u64,
}

proof fn lemma_next_visible(image: Seq<u8>, i: int)
    requires
        0 <= i,
    ensures
        i <= next_visible(image, i) || i >= file_count(image),
        next_visible(image, i) <= file_count(image),
        next_visible(image, i) < file_count(image) ==> visible(image, next_visible(image, i)),
        forall|j: int| i <= j < next_visible(image, i) ==> !#[trigger] visible(image, j),
    decreases file_count(image) - i,
{
    if i < file_count(image) && !visible(image, i) {
        lemma_next_visible(image, i + 1);
    }
}

proof fn lemma_find_file(image: Seq<u8>, name: Seq<u8>, i: int)
    requires
        0 <= i,
    ensures
        i <= find_file(image, name, i) || i >= file_count(image),
        find_file(image, name, i) <= file_count(image),
        find_file(image, name, i) < file_count(image) ==> visible(image, find_file(image, name, i))
            && name_bytes(image, find_file(image, name, i)) == name,
        forall|j: int| i <= j < find_file(image, name, i) ==> !(#[trigger] visible(image, j) && name_bytes(image, j)
            == name),
    decreases file_count(image) - i,
{
    if i < file_count(image) && !(visible(image, i) && name_bytes(image, i) == name) {
        lemma_find_file(image, name, i + 1);
    }
}

impl FileIterator {
    /// Returns the metadata of the next file that lies within the image and
    /// has a valid UTF-8 name, if there is one.
    pub fn next(&mut self, image: &[u8]) -> (r: Option<FileMetadata>)
        requires
            spec_initramfs_valid(image@),
            old(self).count == file_count(image@),
            old(self).current <= old(self).count,
            entries_in_range(image@, old(self).current as int, next_visible(image@, old(self).current as int)),
        ensures
            final(self).count == old(self).count,
            final(self).current <= final(self).count,
            ({
                let i = next_visible(image@, old(self).current as int);
                &&& i < old(self).count ==> r == Some(spec_metadata(image@, i)) && final(self).current == i + 1
                &&& i >= old(self).count ==> r is None && final(self).current == old(self).count
            }),
    {
        let len = image.len();
        let length = len as u64;
        proof {
            lemma_next_visible(image@, self.current as int);
        }
        while self.current < self.count
            invariant
                spec_initramfs_valid(image@),
                len == image@.len(),
                length == image@.len(),
                self.count == old(self).count,
                self.count == file_count(image@),
                old(self).current <= self.current <= self.count,
                next_visible(image@, self.current as int) == next_visible(image@, old(self).current as int),
                entries_in_range(image@, self.current as int, next_visible(image@, self.current as int)),
            decreases self.count - self.current,
        {
            let i = self.current;
            let ghost gi = i as int;
            proof {
                lemma_next_visible(image@, gi);
                assert(entry_in_range(image@, gi));
                assert(metadata_offset(gi) + 32 <= HEADER_SIZE + FILE_METADATA_SIZE * file_count(image@)) by (nonlinear_arith)
                    requires
                        gi < file_count(image@),
                ;
                assert(HEADER_SIZE + FILE_METADATA_SIZE * i + 32 <= image@.len());
            }
            let base = (HEADER_SIZE + FILE_METADATA_SIZE * i) as usize;
            let name_offset = read_u64_big_endian(image, base);
            let name_length = read_u64_big_endian(image, base + 8);
            let content_offset = read_u64_big_endian(image, base + 16);
            let content_length = read_u64_big_endian(image, base + 24);
            self.current = self.current + 1;
            if name_offset + name_length <= length && content_offset + content_length <= length {
                let name_slice = &image[name_offset as usize..(name_offset + name_length) as usize];
                assert(name_slice@ == name_bytes(image@, gi));
                if str_from_utf8(name_slice).is_some() {
                    return Some(FileMetadata {
                        name_offset,
                        name_length,
                        start: content_offset,
                        length: content_length,
                    });
                }
            }
            proof {
                assert(!visible(image@, gi));
            }
        }
        None
    }
}

/// Returns an iterator through the file metadata.
pub fn get_file_iterator(image: &[u8]) -> (r: Result<FileIterator, FileError>)
    requires
        header_in_range(image@),
    ensures
        !spec_initramfs_valid(image@) <==> r == Err::<FileIterator, FileError>(FileError::InvalidFilesystem),
        spec_initramfs_valid(image@) ==> (r matches Ok(it) && it.current == 0 && it.count == file_count(image@)),
{
    if !initramfs_valid(image) {
        Err(FileError::InvalidFilesystem)
    } else {
        let amount_of_files = read_u64_big_endian(image, 8);
        Ok(FileIterator { current: 0, count: amount_of_files })
    }
}


/// Returns true if both byte strings are equal.
pub fn bytes_equal(a: &[u8], b: &[u8]) -> (r: bool)
    ensures
        r == (a@ == b@),
{
    if a.len() != b.len() {
        return false;
    }
    let mut i: usize = 0;
    while i < a.len()
        invariant
            a@.len() == b@.len(),
            0 <= i <= a@.len(),
            forall|j: int| 0 <= j < i ==> a@[j] == b@[j],
        decreases a@.len() - i,
    {
        if a[i] != b[i] {
            return false;
        }
        i = i + 1;
    }
    assert(a@ =~= b@);
    true
}

proof fn lemma_find_skips(image: Seq<u8>, name: Seq<u8>, i: int)
    requires
        0 <= i,
    ensures
        next_visible(image, i) <= find_file(image, name, i),
        find_file(image, name, i) == find_file(image, name, next_visible(image, i)),
    decreases file_count(image) - i,
{
    lemma_find_file(image, name, i);
    if i < file_count(image) && !visible(image, i) {
        lemma_find_skips(image, name, i + 1);
    }
}

/// Represents a file in the initramfs: a window onto the image.
pub struct FileDescriptor<'a> {
    /// The image the file lies in.
    image: &'a [u8],
    /// The offset of the file in the image.
    start: u64,
    /// The length of the file.
    length: u64,
    /// The current offset within the file.
    current_offset: u64,
}

impl<'a> FileDescriptor<'a> {
    /// The file lies within the image and the offset within the file.
    #[verifier::type_invariant]
    spec fn inv(self) -> bool {
        &&& self.start + self.length <= self.image@.len()
        &&& self.image@.len() <= i64::MAX
        &&& self.current_offset <= self.length
    }

    /// The image the file lies in.
    pub closed spec fn image(&self) -> Seq<u8> {
        self.image@
    }

    /// The offset of the file in the image.
    pub closed spec fn start(&self) -> u64 {
        self.start
    }

    /// The length of the file.
    pub closed spec fn length(&self) -> u64 {
        self.length
    }

    /// The current offset within the file.
    pub closed spec fn offset(&self) -> u64 {
        self.current_offset
    }

    /// The bytes of the file.
    pub open spec fn content(&self) -> Seq<u8> {
        self.image().subrange(self.start() as int, self.start() + self.length())
    }

    /// Returns the current offset within the file.
    pub fn current_offset(&self) -> (r: u64)
        ensures
            r == self.offset(),
    {
        self.current_offset
    }
}

impl<'a> FileHandle for FileDescriptor<'a> {
    open spec fn handle_content(&self) -> Seq<u8> {
        self.content()
    }

    open spec fn handle_offset(&self) -> u64 {
        self.offset()
    }

    fn seek(&mut self, position: SeekFrom) -> (r: Result<u64, FileError>)
        ensures
            r == spec_seek(position, old(self).offset() as int, old(self).length() as int),
            final(self).image() == old(self).image(),
            final(self).start() == old(self).start(),
            final(self).length() == old(self).length(),
            r matches Ok(p) ==> final(self).offset() == p,
            r is Err ==> final(self).offset() == old(self).offset(),
    {
        proof {
            use_type_invariant(&*self);
        }
        match position {
            SeekFrom::Start(offset) => {
                if offset > self.length {
                    Err(FileError::SeekPastEnd)
                } else {
                    self.current_offset = offset;
                    Ok(self.current_offset)
                }
            },
            SeekFrom::Current(offset) => {
                if offset == i64::MIN {
                    // The minimum value cannot be negated, making it a special case.
                    let offset = (-(offset + 1)) as u64 + 1;
                    if offset > self.current_offset {
                        Err(FileError::SeekBeforeStart)
                    } else {
                        self.current_offset = self.current_offset - offset;
                        Ok(self.current_offset)
                    }
                } else if offset > 0 {
                    if self.current_offset.saturating_add(offset as u64) > self.length {
                        Err(FileError::SeekPastEnd)
                    } else {
                        self.current_offset = self.current_offset.saturating_add(offset as u64);
                        Ok(self.current_offset)
                    }
                } else if (-offset) as u64 > self.current_offset {
                    Err(FileError::SeekBeforeStart)
                } else {
                    self.current_offset = self.current_offset.saturating_sub((-offset) as u64);
                    Ok(self.current_offset)
                }
            },
            SeekFrom::End(offset) => {
                if offset == i64::MIN {
                    // The minimum value cannot be negated, making it a special case.
                    let offset = (-(offset + 1)) as u64 + 1;
                    if offset > self.length {
                        Err(FileError::SeekBeforeStart)
                    } else {
                        self.current_offset = self.length - offset;
                        Ok(self.current_offset)
                    }
                } else if offset > 0 {
                    Err(FileError::SeekPastEnd)
                } else if ((-offset) as u64) > self.length {
                    Err(FileError::SeekBeforeStart)
                } else {
                    self.current_offset = self.length.saturating_sub((-offset) as u64);
                    Ok(self.current_offset)
                }
            },
        }
    }

    fn read(&mut self, buffer: &mut [u8]) -> (r: Result<(), FileError>)
        ensures
            *final(self) == *old(self),
            final(buffer)@.len() == old(buffer)@.len(),
            old(self).offset() + old(buffer)@.len() > old(self).length() ==> r == Err::<(), FileError>(
                FileError::SeekPastEnd,
            ) && final(buffer)@ == old(buffer)@,
            old(self).offset() + old(buffer)@.len() <= old(self).length() ==> r is Ok && final(buffer)@
                == old(self).content().subrange(
                old(self).offset() as int,
                old(self).offset() + old(buffer)@.len(),
            ),
    {
        proof {
            use_type_invariant(&*self);
        }
        let buffer_length = buffer.len();
        if self.current_offset.saturating_add(buffer_length as u64) > self.length {
            Err(FileError::SeekPastEnd)
        } else {
            let image_length = self.image.len();
            let source = (self.start + self.current_offset) as usize;
            let ghost content = self.content();
            let mut i: usize = 0;
            while i < buffer_length
                invariant
                    image_length == self.image@.len(),
                    buffer_length == buffer@.len(),
                    buffer@.len() == old(buffer)@.len(),
                    0 <= i <= buffer_length,
                    source == self.start + self.current_offset,
                    source + buffer_length <= self.image@.len(),
                    content == self.image@.subrange(self.start as int, self.start + self.length),
                    self.current_offset + buffer_length <= self.length,
                    forall|j: int| 0 <= j < i ==> buffer@[j] == self.image@[source + j],
                decreases buffer_length - i,
            {
                buffer[i] = self.image[source + i];
                i = i + 1;
            }
            assert(buffer@ =~= content.subrange(self.current_offset as int, self.current_offset + buffer_length));
            Ok(())
        }
    }

    fn read_at(&mut self, buffer: &mut [u8], position: u64) -> (r: Result<(), FileError>)
        ensures
            final(self).image() == old(self).image(),
            final(self).start() == old(self).start(),
            final(self).length() == old(self).length(),
            final(buffer)@.len() == old(buffer)@.len(),
            position > old(self).length() ==> r == Err::<(), FileError>(FileError::SeekPastEnd)
                && final(buffer)@ == old(buffer)@ && final(self).offset() == old(self).offset(),
            position <= old(self).length() ==> final(self).offset() == position,
            position <= old(self).length() && position + old(buffer)@.len() > old(self).length() ==> r
                == Err::<(), FileError>(FileError::SeekPastEnd) && final(buffer)@ == old(buffer)@,
            position + old(buffer)@.len() <= old(self).length() ==> r is Ok && final(buffer)@
                == old(self).content().subrange(position as int, position + old(buffer)@.len()),
    {
        match self.seek(SeekFrom::Start(position)) {
            Ok(_) => self.read(buffer),
            Err(e) => Err(e),
        }
    }

    fn len(&mut self) -> (r: u64)
        ensures
            r == old(self).length(),
            old(self).start() + old(self).length() <= old(self).image().len(),
            old(self).image().len() <= i64::MAX,
            old(self).offset() <= old(self).length(),
            final(self).image() == old(self).image(),
            final(self).start() == old(self).start(),
            final(self).length() == old(self).length(),
            final(self).offset() == old(self).offset(),
    {
        proof {
            use_type_invariant(&*self);
        }
        let current_seek = self.seek(SeekFrom::Current(0)).unwrap();
        let size = self.seek(SeekFrom::End(0)).unwrap();
        self.seek(SeekFrom::Start(current_seek)).unwrap();
        size
    }
}

/// Checks whether the image starts with the magic number.
fn has_magic_bytes(image: &[u8]) -> (r: bool)
    ensures
        r == has_magic(image@),
{
    if image.len() < 16 {
        return false;
    }
    let expected = magic();
    let mut i: usize = 0;
    while i < 8
        invariant
            0 <= i <= 8,
            image@.len() >= 16,
            expected@ == spec_magic(),
            forall|k: int| 0 <= k < i ==> image@[k] == spec_magic()[k],
        decreases 8 - i,
    {
        if image[i] != expected[i] {
            assert(image@.subrange(0, 8)[i as int] != spec_magic()[i as int]);
            return false;
        }
        i = i + 1;
    }
    assert(image@.subrange(0, 8) =~= spec_magic());
    true
}

/// Checks that opening the file with the given name reads the metadata of
/// the image without overflow: the size of the metadata fits, and so do the
/// bounds of every file up to the one opened.
pub fn open_checkable(image: &[u8], name: &str) -> (r: bool)
    ensures
        r == (header_in_range(image@) && (spec_initramfs_valid(image@) ==> entries_in_range(
            image@,
            0,
            find_file(image@, name.spec_bytes(), 0),
        ))),
{
    let wanted = name.as_bytes();
    let ghost wanted_seq = name.spec_bytes();
    let len = image.len();
    let length = len as u64;
    if has_magic_bytes(image) {
        let count = read_u64_big_endian(image, 8);
        if count > (u64::MAX - HEADER_SIZE) / FILE_METADATA_SIZE {
            return false;
        }
    }
    if !initramfs_valid(image) {
        return true;
    }
    let count = read_u64_big_endian(image, 8);
    proof {
        lemma_find_file(image@, wanted_seq, 0);
    }
    let mut j: u64 = 0;
    while j < count
        invariant
            spec_initramfs_valid(image@),
            header_in_range(image@),
            count == file_count(image@),
            len == image@.len(),
            length == image@.len(),
            wanted@ == wanted_seq,
            wanted_seq == name.spec_bytes(),
            0 <= j <= count,
            j <= find_file(image@, wanted_seq, 0),
            find_file(image@, wanted_seq, 0) == find_file(image@, wanted_seq, j as int),
            forall|k: int| 0 <= k < j ==> #[trigger] entry_in_range(image@, k),
        decreases count - j,
    {
        let ghost gj = j as int;
        proof {
            lemma_find_file(image@, wanted_seq, gj);
            assert(metadata_offset(gj) + 32 <= HEADER_SIZE + FILE_METADATA_SIZE * file_count(image@)) by (nonlinear_arith)
                requires
                    gj < file_count(image@),
            ;
        }
        let base = (HEADER_SIZE + FILE_METADATA_SIZE * j) as usize;
        let name_offset = read_u64_big_endian(image, base);
        let name_length = read_u64_big_endian(image, base + 8);
        let content_offset = read_u64_big_endian(image, base + 16);
        let content_length = read_u64_big_endian(image, base + 24);
        if name_offset > u64::MAX - name_length {
            proof {
                assert(!entry_in_range(image@, gj));
                assert(!entries_in_range(image@, 0, find_file(image@, wanted_seq, 0)));
            }
            return false;
        }
        if name_offset + name_length <= length && content_offset > u64::MAX - content_length {
            proof {
                assert(!entry_in_range(image@, gj));
                assert(!entries_in_range(image@, 0, find_file(image@, wanted_seq, 0)));
            }
            return false;
        }
        assert(entry_in_range(image@, gj));
        if name_offset + name_length <= length && content_offset + content_length <= length {
            let name_slice = &image[name_offset as usize..(name_offset + name_length) as usize];
            assert(name_slice@ == name_bytes(image@, gj));
            if str_from_utf8(name_slice).is_some() && bytes_equal(name_slice, wanted) {
                proof {
                    assert(find_file(image@, wanted_seq, gj) == gj);
                    assert forall|k: int| 0 <= k <= gj && k < file_count(image@) implies #[trigger] entry_in_range(
                        image@,
                        k,
                    ) by {}
                }
                return true;
            }
        }
        proof {
            assert(!(visible(image@, gj) && name_bytes(image@, gj) == wanted_seq));
            assert(find_file(image@, wanted_seq, gj) == find_file(image@, wanted_seq, gj + 1));
        }
        j = j + 1;
    }
    proof {
        lemma_find_file(image@, wanted_seq, j as int);
        assert forall|k: int| 0 <= k <= find_file(image@, wanted_seq, 0) && k < file_count(image@) implies #[trigger] entry_in_range(
            image@,
            k,
        ) by {}
    }
    true
}

/// Returns the file descriptor for the file with the given name.
///
/// The first file that lies within the image, has a valid UTF-8 name and
/// has the given name is opened, at offset 0.
pub fn open<'a>(image: &'a [u8], name: &str) -> (r: Result<FileDescriptor<'a>, FileError>)
    requires
        image@.len() <= i64::MAX,
        header_in_range(image@),
        spec_initramfs_valid(image@) ==> entries_in_range(image@, 0, find_file(image@, name.spec_bytes(), 0)),
    ensures
        r is Ok <==> spec_open(image@, name.spec_bytes()) is Ok,
        r matches Ok(fd) ==> {
            &&& spec_open(image@, name.spec_bytes()) == Ok::<(u64, u64), FileError>((fd.start(), fd.length()))
            &&& fd.image() == image@
            &&& fd.offset() == 0
        },
        r matches Err(e) ==> spec_open(image@, name.spec_bytes()) == Err::<(u64, u64), FileError>(e),
{
    let wanted_bytes = name.as_bytes();
    let ghost wanted = name.spec_bytes();
    let mut iterator = match get_file_iterator(image) {
        Ok(it) => it,
        Err(e) => {
            return Err(e);
        },
    };
    proof {
        lemma_find_skips(image@, wanted, 0);
        lemma_find_file(image@, wanted, 0);
    }
    while iterator.current < iterator.count
        invariant
            spec_initramfs_valid(image@),
            iterator.count == file_count(image@),
            iterator.current <= iterator.count,
            wanted_bytes@ == wanted,
            wanted == name.spec_bytes(),
            image@.len() <= i64::MAX,
            find_file(image@, wanted, 0) == find_file(image@, wanted, iterator.current as int),
            entries_in_range(image@, 0, find_file(image@, wanted, 0)),
        decreases iterator.count - iterator.current,
    {
        let ghost cur = iterator.current as int;
        proof {
            lemma_find_skips(image@, wanted, cur);
            lemma_next_visible(image@, cur);
        }
        match iterator.next(image) {
            Some(file) => {
                let ghost j = next_visible(image@, cur);
                let len = image.len();
                let name_slice = &image[file.name_offset as usize..(file.name_offset + file.name_length) as usize];
                assert(name_slice@ == name_bytes(image@, j));
                if bytes_equal(name_slice, wanted_bytes) {
                    proof {
                        lemma_find_file(image@, wanted, cur);
                        assert(find_file(image@, wanted, j) == j);
                    }
                    return Ok(FileDescriptor { image, start: file.start, length: file.length, current_offset: 0 });
                }
            },
            None => {
                proof {
                    lemma_find_file(image@, wanted, cur);
                    assert(next_visible(image@, cur) >= file_count(image@));
                    assert(find_file(image@, wanted, cur) == find_file(image@, wanted, next_visible(image@, cur)));
                    assert(find_file(image@, wanted, 0) == file_count(image@));
                }
                return Err(FileError::FileNotFound);
            },
        }
    }
    proof {
        lemma_find_file(image@, wanted, iterator.current as int);
    }
    Err(FileError::FileNotFound)
}

} // verus!
