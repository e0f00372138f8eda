//! File gateway: bridges raw storage bytes to the document text and the file
//! record. Reading and writing the bytes themselves is the presentation
//! layer's work; everything decided here — the size cap, the encoding
//! cascade, the re-encoding on save — is verified.

use vstd::prelude::*;
use crate::codec::Encoding;
use crate::codec::decode_bytes;
use crate::codec::decoded;
use crate::codec::encode_bytes;
use crate::codec::encoded;
use crate::config::Config;
use crate::config::recent_after;
use crate::config::same_prefs;

verus! {

/// Hard cap on loadable file size in raw bytes, independent of encoding:
/// about 58KB of text once encoding expansion is accounted for.
pub const MAX_FILE_SIZE: usize = 60000;

/// Why a load failed. Storage errors arise outside the core and are reported
/// by the caller that did the reading or writing.
#[derive(Clone, Copy, PartialEq, Eq, Structural, Debug)]
pub enum FileError {
    /// The file exceeds [`MAX_FILE_SIZE`] raw bytes.
    FileTooLarge,
    /// A UTF-16 byte-order mark was followed by an odd number of bytes or an
    /// unpaired surrogate.
    InvalidEncoding,
}

impl FileError {
    /// Human-readable message for the error.
    pub fn message(&self) -> (r: &'static str)
        ensures
            *self == FileError::FileTooLarge ==> r@
                == "File is too large. Nodepat can only handle files up to ~58KB."@,
            *self == FileError::InvalidEncoding ==> r@
                == "Invalid UTF-16: odd length or unpaired surrogate."@,
    {
        match self {
            FileError::FileTooLarge => "File is too large. Nodepat can only handle files up to ~58KB.",
            FileError::InvalidEncoding => "Invalid UTF-16: odd length or unpaired surrogate.",
        }
    }
}

/// File record: the path backing the document, whether the text has changed
/// since the last load or save, and the encoding detected at load time.
pub struct FileState {
    /// Current file path; empty means no backing file yet.
    pub file_path: String,
    /// Whether the document has been modified since the last load or save.
    pub is_modified: bool,
    /// Encoding of the last successful load, consulted on every save; UTF-8
    /// for a new document.
    pub encoding: Encoding,
}

impl Default for FileState {
    /// A fresh record, as [`FileState::new`] gives.
    fn default() -> (r: FileState)
        ensures
            r.file_path@ == Seq::<char>::empty(),
            r.is_modified == false,
            r.encoding == Encoding::Utf8,
    {
        FileState::new()
    }
}

impl FileState {
    /// A fresh record: no backing file, unmodified, UTF-8.
    pub fn new() -> (r: FileState)
        ensures
            r.file_path@ == Seq::<char>::empty(),
            r.is_modified == false,
            r.encoding == Encoding::Utf8,
    {
        FileState { file_path: String::new(), is_modified: false, encoding: Encoding::Utf8 }
    }

    /// Accepts the raw bytes read from `path`: rejects anything over
    /// [`MAX_FILE_SIZE`] bytes before any decoding attempt, then runs the
    /// detection cascade. On success the record takes the path and the
    /// detected encoding and is marked unmodified; on failure it is
    /// untouched.
    pub fn load_file(&mut self, path: &str, data: &[u8]) -> (r: Result<Vec<char>, FileError>)
        ensures
            data@.len() > MAX_FILE_SIZE ==> r == Err::<Vec<char>, FileError>(
                FileError::FileTooLarge,
            ) && *final (self) == *old(self),
            data@.len() <= MAX_FILE_SIZE && decoded(data@) is None ==> r == Err::<
                Vec<char>,
                FileError,
            >(FileError::InvalidEncoding) && *final (self) == *old(self),
            data@.len() <= MAX_FILE_SIZE && decoded(data@) is Some ==> (r matches Ok(text)
                && decoded(data@) == Some((text@, final (self).encoding))
                && final (self).file_path@ == path@
                && final (self).is_modified == false),
    {
        if data.len() > MAX_FILE_SIZE {
            return Err(FileError::FileTooLarge);
        }
        match decode_bytes(data) {
            None => Err(FileError::InvalidEncoding),
            Some((text, enc)) => {
                self.file_path = path.to_owned();
                self.encoding = enc;
                self.is_modified = false;
                Ok(text)
            },
        }
    }

    /// Encodes the document for saving under the encoding recorded at load
    /// time — never re-detected from the text.
    pub fn encode_for_save(&self, content: &Vec<char>) -> (r: Vec<u8>)
        ensures
            r@ == encoded(content@, self.encoding),
    {
        encode_bytes(content, self.encoding)
    }

    /// Records a completed write to `path`: the record takes the path and is
    /// marked unmodified; the encoding is kept.
    pub fn mark_saved(&mut self, path: &str)
        ensures
            final (self).file_path@ == path@,
            final (self).is_modified == false,
            final (self).encoding == old(self).encoding,
    {
        self.file_path = path.to_owned();
        self.is_modified = false;
    }

    /// Enters the backing file, if any, at the front of the configuration's
    /// recent-files list; a record with no backing file changes nothing.
    pub fn add_to_recent_files(&self, config: &mut Config)
        ensures
            self.file_path@.len() == 0 ==> *final (config) == *old(config),
            self.file_path@.len() > 0 ==> final (config).recent_files.deep_view() == recent_after(
                old(config).recent_files.deep_view(),
                self.file_path@,
            ) && same_prefs(*final (config), *old(config)),
    {
        if self.file_path.as_str().unicode_len() > 0 {
            config.add_recent_file(self.file_path.as_str());
        }
    }
}

} // verus!
