pub mod archive;
pub mod byteops;
pub mod enc_utils;
pub mod fs_core;

pub use crate::archive::{
    ArchiveCreator, ArchiveFileSystem, FileEntry, Header, SourceFile, ARCHIVE_VERSION,
    FILE_ENTRY_SIZE, HEADER_SIZE, MAX_FILE_NAME_SIZE, MAX_PATH_SIZE,
};
pub use crate::enc_utils::{
    EncKey, EncUtils, FileContent, MAX_ENC_KEY_SIZE, MAX_PLAINTEXT_SIZE, NONCE_SIZE, TAG_SIZE,
};
pub use crate::fs_core::{FileInfo, FileSystem, FileSystemError};
