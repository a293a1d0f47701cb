//! What reading one file decides, apart from the reading itself: which paths are read at all,
//! which sizes are accepted, and which bytes make a source.
//!
//! The caller asks the file system and hands the answers here: whether the path is a regular
//! file, how long it says it is, and the bytes read through a bound of one byte past
//! [`MAX_FILE_BYTES`].
use std::path::PathBuf;

use vstd::prelude::*;
use vstd::utf8::{encode_utf8, valid_utf8};

use crate::application::fault::ReadFault;

verus! {

/// The largest file, in bytes, that is read. A larger file is rejected from its metadata before
/// it is opened, and a file that grows past this bound while it is read is rejected after reading
/// at most one byte more than the bound.
pub const MAX_FILE_BYTES: u64 = 10 * 1024 * 1024;

/// The fault for a path that is not a regular file, or a symlink to one.
pub fn not_regular_file(path: PathBuf) -> (res: ReadFault)
    ensures
        res == (ReadFault::NotRegularFile { path }),
{
    ReadFault::NotRegularFile { path }
}

/// The fault for a file larger than [`MAX_FILE_BYTES`].
pub fn too_large(path: PathBuf) -> (res: ReadFault)
    ensures
        res == (ReadFault::TooLarge { path, limit_bytes: MAX_FILE_BYTES }),
{
    ReadFault::TooLarge { path, limit_bytes: MAX_FILE_BYTES }
}

/// The fault for a file that could not be read, with the operating system's reason.
pub fn unreadable(path: PathBuf, detail: String) -> (res: ReadFault)
    ensures
        res == (ReadFault::Unreadable { path, detail }),
{
    ReadFault::Unreadable { path, detail }
}

/// Admits a path to be read only when it is a regular file, or a symlink to one: a named pipe, a
/// device, or a directory is never read. Checked once from the path and once more on the opened
/// handle, since the path may be replaced in between.
pub fn admit_regular_file(path: PathBuf, is_file: bool) -> (res: Result<PathBuf, ReadFault>)
    ensures
        is_file ==> res == Ok::<PathBuf, ReadFault>(path),
        !is_file ==> res == Err::<PathBuf, ReadFault>(ReadFault::NotRegularFile { path }),
{
    if is_file {
        Ok(path)
    } else {
        Err(not_regular_file(path))
    }
}

/// Admits a file whose metadata gives `len` bytes only when that is within [`MAX_FILE_BYTES`].
pub fn admit_size(path: PathBuf, len: u64) -> (res: Result<PathBuf, ReadFault>)
    ensures
        len <= MAX_FILE_BYTES ==> res == Ok::<PathBuf, ReadFault>(path),
        len > MAX_FILE_BYTES ==> res == Err::<PathBuf, ReadFault>(
            ReadFault::TooLarge { path, limit_bytes: MAX_FILE_BYTES },
        ),
{
    if len > MAX_FILE_BYTES {
        Err(too_large(path))
    } else {
        Ok(path)
    }
}

/// The string whose UTF-8 encoding is `bytes` (`String::from_utf8`), or `None` when `bytes` is not
/// valid UTF-8. The bytes are moved into the string, not copied or changed.
#[verifier::external_body]
fn utf8_string(bytes: Vec<u8>) -> (res: Option<String>)
    ensures
        res is Some <==> valid_utf8(bytes@),
        res matches Some(text) ==> encode_utf8(text@) == bytes@,
{
    String::from_utf8(bytes).ok()
}

/// The source that bytes read from `path` make: more than [`MAX_FILE_BYTES`] bytes is too large,
/// and otherwise the bytes must be UTF-8.
pub fn source_from_bytes(path: PathBuf, bytes: Vec<u8>) -> (res: Result<String, ReadFault>)
    ensures
        bytes@.len() > MAX_FILE_BYTES ==> res == Err::<String, ReadFault>(
            ReadFault::TooLarge { path, limit_bytes: MAX_FILE_BYTES },
        ),
        bytes@.len() <= MAX_FILE_BYTES && !valid_utf8(bytes@) ==> res == Err::<String, ReadFault>(
            ReadFault::InvalidUtf8 { path },
        ),
        bytes@.len() <= MAX_FILE_BYTES && valid_utf8(bytes@) ==> (res matches Ok(text) && encode_utf8(
            text@,
        ) == bytes@),
{
    if bytes.len() as u64 > MAX_FILE_BYTES {
        return Err(too_large(path));
    }
    match utf8_string(bytes) {
        Some(text) => Ok(text),
        None => Err(ReadFault::InvalidUtf8 { path }),
    }
}

} // verus!
