//! An abstraction for accessing files.

use vstd::prelude::*;

verus! {

/// The different kinds of errors that can occur with file operations.
#[derive(Clone, Copy, Debug, PartialEq, Eq, Structural)]
pub enum FileError {
    /// A seek before byte 0 was attempted.
    SeekBeforeStart,
    /// A seek after the last byte was attempted.
    SeekPastEnd,
    /// The file system is not valid.
    InvalidFilesystem,
    /// No file with the given name exists.
    FileNotFound,
}

/// The different ways to seek a file.
#[derive(Clone, Copy, Debug, PartialEq, Eq, Structural)]
pub enum SeekFrom {
    /// Seek from the start.
    Start(u64),
    /// Seek from the end.
    End(i64),
    /// Seek from the current seek position.
    Current(i64),
}

/// The position a seek aims at, before it is checked against the bounds of
/// the file.
pub open spec fn seek_target(position: SeekFrom, current: int, length: int) -> int {
    match position {
        SeekFrom::Start(offset) => offset as int,
        SeekFrom::End(offset) => length + offset,
        SeekFrom::Current(offset) => current + offset,
    }
}

/// What a seek returns: the new position, or the bound it would cross.
pub open spec fn spec_seek(position: SeekFrom, current: int, length: int) -> Result<u64, FileError> {
    let target = seek_target(position, current, length);
    if target < 0 {
        Err(FileError::SeekBeforeStart)
    } else if target > length {
        Err(FileError::SeekPastEnd)
    } else {
        Ok(target as u64)
    }
}

/// Everything that abstracts a file implements this.
///
/// A file handle is seen as the bytes of the file and the current seek
/// position.
pub trait FileHandle {
    /// The bytes of the file.
    spec fn handle_content(&self) -> Seq<u8>;

    /// The current seek position, from the beginning of the file.
    spec fn handle_offset(&self) -> u64;

    /// Sets the current seek position. Returns the offset from the beginning.
    ///
    /// A position before the start or after the end of the file is refused
    /// and leaves the seek position as it was.
    fn seek(&mut self, position: SeekFrom) -> (r: Result<u64, FileError>)
        ensures
            r == spec_seek(position, old(self).handle_offset() as int, old(self).handle_content().len() as int),
            final(self).handle_content() == old(self).handle_content(),
            r matches Ok(p) ==> final(self).handle_offset() == p,
            r is Err ==> final(self).handle_offset() == old(self).handle_offset(),
    ;

    /// Reads `buffer.len()` bytes into `buffer` from the current position.
    ///
    /// The seek position stays where it is. Reading past the end of the file
    /// is refused and leaves the buffer as it was.
    fn read(&mut self, buffer: &mut [u8]) -> (r: Result<(), FileError>)
        ensures
            final(self).handle_content() == old(self).handle_content(),
            final(self).handle_offset() == old(self).handle_offset(),
            final(buffer)@.len() == old(buffer)@.len(),
            old(self).handle_offset() + old(buffer)@.len() > old(self).handle_content().len() ==> r == Err::<
                (),
                FileError,
            >(FileError::SeekPastEnd) && final(buffer)@ == old(buffer)@,
            old(self).handle_offset() + old(buffer)@.len() <= old(self).handle_content().len() ==> r is Ok
                && final(buffer)@ == old(self).handle_content().subrange(
                old(self).handle_offset() as int,
                old(self).handle_offset() + old(buffer)@.len(),
            ),
    ;

    /// Reads `buffer.len()` bytes into `buffer` at offset `position` from the
    /// beginning.
    ///
    /// The seek position moves to `position` if that lies within the file;
    /// reading past the end is refused and leaves the buffer as it was.
    fn read_at(&mut self, buffer: &mut [u8], position: u64) -> (r: Result<(), FileError>)
        ensures
            final(self).handle_content() == old(self).handle_content(),
            final(buffer)@.len() == old(buffer)@.len(),
            position > old(self).handle_content().len() ==> r == Err::<(), FileError>(FileError::SeekPastEnd)
                && final(buffer)@ == old(buffer)@ && final(self).handle_offset() == old(self).handle_offset(),
            position <= old(self).handle_content().len() ==> final(self).handle_offset() == position,
            position <= old(self).handle_content().len() && position + old(buffer)@.len() > old(
                self,
            ).handle_content().len() ==> r == Err::<(), FileError>(FileError::SeekPastEnd) && final(buffer)@ == old(
                buffer,
            )@,
            position + old(buffer)@.len() <= old(self).handle_content().len() ==> r is Ok && final(buffer)@ == old(
                self,
            ).handle_content().subrange(position as int, position + old(buffer)@.len()),
    {
        match self.seek(SeekFrom::Start(position)) {
            Ok(_) => self.read(buffer),
            Err(e) => Err(e),
        }
    }

    /// Returns the size of the file; the seek position stays where it is.
    fn len(&mut self) -> (r: u64)
        ensures
            r == old(self).handle_content().len(),
            final(self).handle_content() == old(self).handle_content(),
            final(self).handle_offset() == old(self).handle_offset(),
    ;
}

} // verus!
