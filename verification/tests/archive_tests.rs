use evfs::{
    ArchiveCreator, ArchiveFileSystem, EncUtils, FileEntry, FileSystem, FileSystemError, Header,
    SourceFile, FILE_ENTRY_SIZE, HEADER_SIZE,
};

fn sample_files() -> Vec<SourceFile> {
    vec![
        SourceFile {
            name: "a.txt".to_string(),
            path: "test_directory/a.txt".to_string(),
            content: b"hello".to_vec(),
        },
        SourceFile {
            name: "b.txt".to_string(),
            path: "test_directory/sub/b.txt".to_string(),
            content: b"abc".to_vec(),
        },
    ]
}

fn make_creator(key: Vec<u8>) -> ArchiveCreator {
    ArchiveCreator::new("test_directory", "test_archive.arc", key, true, true, false)
        .expect("Failed to create ArchiveCreator")
}

#[test]
fn test_archive() {
    let key = EncUtils::generate_random_key();
    let creator = make_creator(key.clone());
    let container = creator.create(&sample_files()).expect("Failed to create archive");
    let archive_fs = ArchiveFileSystem::open(container, key).expect("Failed to open archive");
    assert!(archive_fs.entry_count() > 0, "Archive should contain files");
    let files = ArchiveFileSystem::list_files(&archive_fs, "")
        .expect("Failed to list files in archive");
    assert!(!files.is_empty(), "Archive should list files");
    for file in files {
        println!("{}", file.path);
    }
}

#[test]
fn test_round_trip_scenario() {
    // Two files of 5 and 3 plaintext bytes: the header counts both, each path
    // reads back byte-identical, and an absent path is NotFound.
    let key = EncUtils::generate_random_key();
    let creator = make_creator(key.clone());
    let container = creator.create(&sample_files()).unwrap();
    let header = Header::from_bytes(&container).unwrap();
    assert_eq!(header.number_of_files, 2);
    let archive = ArchiveFileSystem::open(container, key).unwrap();
    assert_eq!(
        ArchiveFileSystem::read_file(&archive, "a.txt").unwrap(),
        b"hello".to_vec()
    );
    assert_eq!(
        ArchiveFileSystem::read_file(&archive, "sub/b.txt").unwrap(),
        b"abc".to_vec()
    );
    assert_eq!(
        ArchiveFileSystem::read_file(&archive, "missing.txt").err(),
        Some(FileSystemError::NotFound)
    );
}

#[test]
fn test_header_rejection() {
    let key = EncUtils::generate_random_key();
    let creator = make_creator(key.clone());
    let container = creator.create(&sample_files()).unwrap();

    // Unsupported version.
    let mut bad = container.clone();
    bad[0] = 2;
    assert_eq!(
        ArchiveFileSystem::open(bad, key.clone()).err(),
        Some(FileSystemError::ValidationError)
    );

    // Zero files.
    let mut bad = container.clone();
    for i in 1..5 {
        bad[i] = 0;
    }
    assert_eq!(
        ArchiveFileSystem::open(bad, key.clone()).err(),
        Some(FileSystemError::ValidationError)
    );

    // Total size smaller than header plus table.
    let mut bad = container.clone();
    for i in 5..13 {
        bad[i] = 0;
    }
    bad[5] = 1;
    assert_eq!(
        ArchiveFileSystem::open(bad, key.clone()).err(),
        Some(FileSystemError::ValidationError)
    );

    // Data offset smaller than header plus table.
    let mut bad = container.clone();
    for i in 13..21 {
        bad[i] = 0;
    }
    assert_eq!(
        ArchiveFileSystem::open(bad, key.clone()).err(),
        Some(FileSystemError::ValidationError)
    );

    // A buffer shorter than the header is malformed, not a crash.
    assert_eq!(
        ArchiveFileSystem::open(vec![1u8; 10], key.clone()).err(),
        Some(FileSystemError::MalformedRecord)
    );

    // A table cut short is malformed too.
    let truncated = container[..HEADER_SIZE + FILE_ENTRY_SIZE - 1].to_vec();
    assert_eq!(
        ArchiveFileSystem::open(truncated, key).err(),
        Some(FileSystemError::MalformedRecord)
    );
}

#[test]
fn test_tamper_detection() {
    // Flipping any single byte of the payload region makes the touched file
    // fail authentication instead of returning empty bytes.
    let key = EncUtils::generate_random_key();
    let creator = make_creator(key.clone());
    let files = vec![SourceFile {
        name: "a.txt".to_string(),
        path: "test_directory/a.txt".to_string(),
        content: b"hello".to_vec(),
    }];
    let container = creator.create(&files).unwrap();
    let data_offset = HEADER_SIZE + FILE_ENTRY_SIZE;
    for pos in data_offset..container.len() {
        let mut tampered = container.clone();
        tampered[pos] ^= 0x01;
        let archive = ArchiveFileSystem::open(tampered, key.clone()).unwrap();
        let got = ArchiveFileSystem::read_file(&archive, "a.txt");
        assert_eq!(
            got.err(),
            Some(FileSystemError::AuthenticationFailed),
            "byte {} flipped",
            pos
        );
    }
}

#[test]
fn test_listing() {
    let key = EncUtils::generate_random_key();
    let creator = make_creator(key.clone());
    let container = creator.create(&sample_files()).unwrap();
    let archive = ArchiveFileSystem::open(container, key).unwrap();

    let all = ArchiveFileSystem::list_files(&archive, "").unwrap();
    assert!(all
        .iter()
        .any(|f| f.path == "a.txt" && !f.is_directory && f.name == "a.txt"));
    assert!(all.iter().any(|f| f.path == "sub/b.txt" && !f.is_directory));
    assert!(all
        .iter()
        .any(|f| f.path == "sub" && f.is_directory && f.name == "sub"));
    assert_eq!(all.len(), 3);

    let sub = ArchiveFileSystem::list_files(&archive, "sub").unwrap();
    assert!(sub.iter().any(|f| f.path == "sub/b.txt" && !f.is_directory));
    assert!(
        !sub.iter().any(|f| f.is_directory),
        "list(\"sub\") must not re-synthesize sub itself"
    );
    assert_eq!(sub.len(), 1);
}

#[test]
fn test_open_idempotent() {
    let key = EncUtils::generate_random_key();
    let creator = make_creator(key.clone());
    let container = creator.create(&sample_files()).unwrap();
    let a1 = ArchiveFileSystem::open(container.clone(), key.clone()).unwrap();
    let a2 = ArchiveFileSystem::open(container, key).unwrap();
    assert_eq!(a1.entry_count(), a2.entry_count());
    let l1 = ArchiveFileSystem::list_files(&a1, "").unwrap();
    let l2 = ArchiveFileSystem::list_files(&a2, "").unwrap();
    assert_eq!(l1, l2);
    assert_eq!(
        ArchiveFileSystem::read_file(&a1, "a.txt").unwrap(),
        ArchiveFileSystem::read_file(&a2, "a.txt").unwrap()
    );
}

#[test]
fn test_read_only_medium() {
    let key = EncUtils::generate_random_key();
    let creator = make_creator(key.clone());
    let container = creator.create(&sample_files()).unwrap();
    let archive = ArchiveFileSystem::open(container, key).unwrap();
    assert_eq!(
        ArchiveFileSystem::write_file(&archive, "a.txt", b"x".to_vec()).err(),
        Some(FileSystemError::ReadOnlyMedium)
    );
    assert_eq!(
        ArchiveFileSystem::delete_file(&archive, "a.txt").err(),
        Some(FileSystemError::ReadOnlyMedium)
    );
}

#[test]
fn test_creator_preconditions() {
    let key = EncUtils::generate_random_key();
    assert_eq!(
        ArchiveCreator::new("d", "f", key.clone(), false, false, false).err(),
        Some(FileSystemError::NotADirectory)
    );
    assert_eq!(
        ArchiveCreator::new("d", "f", key.clone(), false, true, true).err(),
        Some(FileSystemError::DestinationExists)
    );
    assert!(ArchiveCreator::new("d", "f", key.clone(), true, true, true).is_ok());
    assert_eq!(
        ArchiveCreator::new("d", "f", vec![0u8; 4], false, true, false).err(),
        Some(FileSystemError::InvalidKeySize)
    );
    let creator = ArchiveCreator::new("d", "f", key, false, true, false).unwrap();
    assert_eq!(creator.file_path().as_str(), "f");
    assert_eq!(
        creator.create(&vec![]).err(),
        Some(FileSystemError::EmptyArchive)
    );
}

#[test]
fn test_oversized_name_and_path() {
    let key = EncUtils::generate_random_key();
    let creator = make_creator(key.clone());
    let long_name = "n".repeat(17);
    let files = vec![SourceFile {
        name: long_name.clone(),
        path: "test_directory/x".to_string(),
        content: b"x".to_vec(),
    }];
    assert_eq!(
        creator.create(&files).err(),
        Some(FileSystemError::NameTooLong)
    );
    let long_path = format!("test_directory/{}", "p".repeat(300));
    let files = vec![SourceFile {
        name: "x".to_string(),
        path: long_path,
        content: b"x".to_vec(),
    }];
    assert_eq!(
        creator.create(&files).err(),
        Some(FileSystemError::PathTooLong)
    );
    assert_eq!(
        FileEntry::new(&long_name, "p", 0, 0).err(),
        Some(FileSystemError::NameTooLong)
    );
    assert_eq!(
        FileEntry::new("n", &"p".repeat(256), 0, 0).err(),
        Some(FileSystemError::PathTooLong)
    );
}

#[test]
fn test_blob_out_of_bounds_is_io_failure() {
    // A container whose payload region is cut off opens, but reading reports
    // the storage failure.
    let key = EncUtils::generate_random_key();
    let creator = make_creator(key.clone());
    let container = creator.create(&sample_files()).unwrap();
    let truncated = container[..HEADER_SIZE + 2 * FILE_ENTRY_SIZE].to_vec();
    let archive = ArchiveFileSystem::open(truncated, key).unwrap();
    assert_eq!(
        ArchiveFileSystem::read_file(&archive, "a.txt").err(),
        Some(FileSystemError::IOFailure)
    );
}

#[test]
fn test_entry_codec_exact_layout() {
    let entry = FileEntry::new("name", "some/path", 0x0102030405060708, 0x1112131415161718)
        .unwrap();
    let bytes = entry.to_bytes();
    assert_eq!(bytes.len(), FILE_ENTRY_SIZE);
    assert_eq!(&bytes[0..4], b"name");
    assert_eq!(&bytes[4..16], &[0u8; 12]);
    assert_eq!(&bytes[16..25], b"some/path");
    assert_eq!(&bytes[25..271], vec![0u8; 246].as_slice());
    assert_eq!(
        &bytes[271..279],
        &[0x08, 0x07, 0x06, 0x05, 0x04, 0x03, 0x02, 0x01]
    );
    assert_eq!(
        &bytes[279..287],
        &[0x18, 0x17, 0x16, 0x15, 0x14, 0x13, 0x12, 0x11]
    );
    let back = FileEntry::from_bytes(&bytes).unwrap();
    assert_eq!(back, entry);
    assert_eq!(back.name(), "name");
    assert_eq!(back.path(), "some/path");
    assert_eq!(
        FileEntry::from_bytes(&bytes[..FILE_ENTRY_SIZE - 1]).err(),
        Some(FileSystemError::MalformedRecord)
    );
}

#[test]
fn test_header_codec_exact_layout() {
    let header = Header {
        version: 1,
        number_of_files: 0x01020304,
        size: 0x0506070809101112,
        data_offset: 21,
    };
    let bytes = header.to_bytes();
    assert_eq!(bytes.len(), HEADER_SIZE);
    assert_eq!(bytes[0], 1);
    assert_eq!(&bytes[1..5], &[0x04, 0x03, 0x02, 0x01]);
    let back = Header::from_bytes(&bytes).unwrap();
    assert_eq!(back, header);
    assert_eq!(
        Header::from_bytes(&bytes[..HEADER_SIZE - 1]).err(),
        Some(FileSystemError::MalformedRecord)
    );
}

#[test]
fn test_strip_prefix() {
    let mut entry = FileEntry::new("a.txt", "root/dir/a.txt", 3, 4).unwrap();
    entry.strip_prefix("root").unwrap();
    assert_eq!(entry.path(), "dir/a.txt");
    let mut entry = FileEntry::new("a.txt", "elsewhere/a.txt", 3, 4).unwrap();
    entry.strip_prefix("root").unwrap();
    assert_eq!(entry.path(), "elsewhere/a.txt");
    let mut entry = FileEntry::new("a", "root", 0, 0).unwrap();
    entry.strip_prefix("root").unwrap();
    assert_eq!(entry.path(), "");
}

#[test]
fn test_lossy_name_decoding() {
    // A name slot holding invalid UTF-8 is read lossily, not dropped or
    // passed through as raw bytes.
    let entry = FileEntry::new("name", "p", 1, 2).unwrap();
    let mut bytes = entry.to_bytes();
    bytes[0] = 0xFF;
    let back = FileEntry::from_bytes(&bytes).unwrap();
    assert_eq!(back.name(), "\u{FFFD}ame");
}

#[test]
fn test_read_file_as_string_rejects_binary() {
    let key = EncUtils::generate_random_key();
    let creator = make_creator(key.clone());
    let files = vec![SourceFile {
        name: "bin".to_string(),
        path: "test_directory/bin".to_string(),
        content: vec![0xFF, 0xFE, 0x00],
    }];
    let container = creator.create(&files).unwrap();
    let archive = ArchiveFileSystem::open(container, key).unwrap();
    assert_eq!(
        ArchiveFileSystem::read_file(&archive, "bin").unwrap(),
        vec![0xFF, 0xFE, 0x00]
    );
    assert!(FileSystem::read_file_as_string(&archive, "bin").is_err());
}

#[test]
fn test_read_file_as_string() {
    let key = EncUtils::generate_random_key();
    let creator = make_creator(key.clone());
    let container = creator.create(&sample_files()).unwrap();
    let archive = ArchiveFileSystem::open(container, key).unwrap();
    let s = FileSystem::read_file_as_string(&archive, "a.txt").unwrap();
    assert_eq!(s, "hello");
}
