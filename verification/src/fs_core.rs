use vstd::prelude::*;

verus! {

/// Typed failures of the container and of the storage interface around it.
#[derive(Clone, Copy, Debug, PartialEq, Eq, Structural)]
pub enum FileSystemError {
    /// A header field is unsupported or inconsistent.
    ValidationError,
    /// The requested path is absent from the index.
    NotFound,
    /// A header or entry buffer is shorter than its fixed width.
    MalformedRecord,
    /// The underlying storage medium failed.
    IOFailure,
    /// A write or delete was attempted against a sealed container.
    ReadOnlyMedium,
    /// The key does not have the exact required length.
    InvalidKeySize,
    /// Authenticated decryption rejected the blob.
    AuthenticationFailed,
    /// An encrypted blob is too short to hold a nonce.
    TruncatedCiphertext,
    /// A display name does not fit its fixed slot.
    NameTooLong,
    /// A path does not fit its fixed slot.
    PathTooLong,
    /// The source path is not a directory.
    NotADirectory,
    /// The destination exists and overwriting was not allowed.
    DestinationExists,
    /// No regular files were found to package.
    EmptyArchive,
}

impl FileSystemError {
    /// A short description of the failure.
    pub fn message(&self) -> String {
        match self {
            FileSystemError::ValidationError => "invalid container header".to_owned(),
            FileSystemError::NotFound => "file not found".to_owned(),
            FileSystemError::MalformedRecord => "truncated record".to_owned(),
            FileSystemError::IOFailure => "storage failure".to_owned(),
            FileSystemError::ReadOnlyMedium => "medium is read-only".to_owned(),
            FileSystemError::InvalidKeySize => "invalid key size".to_owned(),
            FileSystemError::AuthenticationFailed => "authentication failed".to_owned(),
            FileSystemError::TruncatedCiphertext => "ciphertext too short".to_owned(),
            FileSystemError::NameTooLong => "file name too long".to_owned(),
            FileSystemError::PathTooLong => "file path too long".to_owned(),
            FileSystemError::NotADirectory => "source is not a directory".to_owned(),
            FileSystemError::DestinationExists => "destination already exists".to_owned(),
            FileSystemError::EmptyArchive => "no files to archive".to_owned(),
        }
    }
}

/// One row of a directory listing: a packaged file or a synthesized
/// pseudo-directory.
#[derive(Debug, Clone, PartialEq, Eq)]
pub struct FileInfo {
    pub name: String,
    pub path: String,
    pub is_directory: bool,
    pub size: u64,
}

/// The storage interface that every backend offers: read, write and delete by
/// textual path, and listing under a directory prefix.
pub trait FileSystem {
    fn read_file(&self, path: &str) -> Result<crate::enc_utils::FileContent, FileSystemError>;

    fn write_file(&self, path: &str, content: crate::enc_utils::FileContent) -> Result<
        (),
        FileSystemError,
    >;

    fn delete_file(&self, path: &str) -> Result<(), FileSystemError>;

    fn list_files(&self, directory: &str) -> Result<Vec<FileInfo>, FileSystemError>;

    fn read_file_as_string(&self, path: &str) -> Result<String, FileSystemError> {
        match self.read_file(path) {
            Ok(content) => match crate::byteops::vec_to_string(content) {
                Some(s) => Ok(s),
                None => Err(FileSystemError::ValidationError),
            },
            Err(e) => Err(e),
        }
    }

    fn write_file_from_string(&self, path: &str, content: &str) -> Result<(), FileSystemError> {
        let bytes = vstd::slice::slice_to_vec(content.as_bytes());
        self.write_file(path, bytes)
    }
}

} // verus!
