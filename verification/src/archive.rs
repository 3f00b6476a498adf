use vstd::prelude::*;
use vstd::bytes::*;

use crate::byteops::{
    bytes_eq, bytes_to_string_lossy, find_first, first_pos, is_prefix_of, lemma_trim_zero_pad,
    lemma_trim_zeros_le, lossy_decode, no_trailing_zero, pad_to, starts_with_bytes, trim_zeros,
    trimmed_len, zero_pad,
};
use crate::enc_utils::{blob_plaintext, EncKey, EncUtils, FileContent, MAX_PLAINTEXT_SIZE,
    NONCE_SIZE, TAG_SIZE};
use crate::fs_core::{FileInfo, FileSystem, FileSystemError};

verus! {

/// Width of the fixed container header: version, file count, total size,
/// data offset.
pub const HEADER_SIZE: usize = 21;

/// Capacity of an entry's display-name slot in bytes.
pub const MAX_FILE_NAME_SIZE: usize = 16;

/// Capacity of an entry's path slot in bytes.
pub const MAX_PATH_SIZE: usize = 255;

/// Width of one fixed entry record: name slot, path slot, size, offset.
pub const FILE_ENTRY_SIZE: usize = 287;

/// The one container format version this reader understands.
pub const ARCHIVE_VERSION: u8 = 1;

/// The path separator byte, `/`.
pub const SLASH: u8 = 47;

/// Mathematical image of one entry record: the two zero-padded slots and the
/// two unsigned fields.
pub ghost struct EntryModel {
    pub name: Seq<u8>,
    pub path: Seq<u8>,
    pub size: u64,
    pub offset: u64,
}

impl EntryModel {
    /// Both slots are filled to their fixed capacity.
    pub open spec fn wf(self) -> bool {
        self.name.len() == MAX_FILE_NAME_SIZE && self.path.len() == MAX_PATH_SIZE
    }

    /// The fixed-width little-endian encoding of this entry.
    pub open spec fn enc(self) -> Seq<u8> {
        self.name + self.path + spec_u64_to_le_bytes(self.size) + spec_u64_to_le_bytes(self.offset)
    }

    /// The archive-relative path this entry is keyed by: the path slot with
    /// its zero padding removed.
    pub open spec fn rel_path(self) -> Seq<u8> {
        trim_zeros(self.path)
    }
}

/// Entry record decoded from the first `FILE_ENTRY_SIZE` bytes of `b`.
pub open spec fn parse_entry(b: Seq<u8>) -> EntryModel {
    EntryModel {
        name: b.subrange(0, MAX_FILE_NAME_SIZE as int),
        path: b.subrange(MAX_FILE_NAME_SIZE as int, (MAX_FILE_NAME_SIZE + MAX_PATH_SIZE) as int),
        size: spec_u64_from_le_bytes(b.subrange(271, 279)),
        offset: spec_u64_from_le_bytes(b.subrange(279, 287)),
    }
}

/// Decoding inverts encoding for a well-formed entry.
pub proof fn lemma_parse_entry_enc(e: EntryModel)
    requires
        e.wf(),
    ensures
        e.enc().len() == FILE_ENTRY_SIZE,
        parse_entry(e.enc()) == e,
{
    lemma_auto_spec_u64_to_from_le_bytes();
    let b = e.enc();
    assert(b.subrange(0, MAX_FILE_NAME_SIZE as int) =~= e.name);
    assert(b.subrange(MAX_FILE_NAME_SIZE as int, (MAX_FILE_NAME_SIZE + MAX_PATH_SIZE) as int)
        =~= e.path);
    assert(b.subrange(271, 279) =~= spec_u64_to_le_bytes(e.size));
    assert(b.subrange(279, 287) =~= spec_u64_to_le_bytes(e.offset));
}

/// One record of the entry table: a display name and an archive-relative path
/// in zero-padded fixed slots, the ciphertext length and its absolute offset.
#[derive(Debug, Clone, PartialEq, Eq)]
pub struct FileEntry {
    pub name: Vec<u8>,
    pub path: Vec<u8>,
    pub size: u64,
    pub offset: u64,
}

impl View for FileEntry {
    type V = EntryModel;

    open spec fn view(&self) -> EntryModel {
        EntryModel { name: self.name@, path: self.path@, size: self.size, offset: self.offset }
    }
}

impl FileEntry {
    /// Both byte slots hold exactly their fixed capacity.
    pub open spec fn wf(self) -> bool {
        self@.wf()
    }

    /// Decodes one fixed-width record; a shorter buffer is a malformed record,
    /// never a crash.
    pub fn from_bytes(bytes: &[u8]) -> (r: Result<FileEntry, FileSystemError>)
        ensures
            bytes@.len() < FILE_ENTRY_SIZE ==> r == Err::<FileEntry, FileSystemError>(
                FileSystemError::MalformedRecord,
            ),
            bytes@.len() >= FILE_ENTRY_SIZE ==> (r matches Ok(e) && e@ == parse_entry(bytes@)
                && e.wf()),
    {
        if bytes.len() < FILE_ENTRY_SIZE {
            return Err(FileSystemError::MalformedRecord);
        }
        let name = vstd::slice::slice_to_vec(
            vstd::slice::slice_subrange(bytes, 0, MAX_FILE_NAME_SIZE),
        );
        let path = vstd::slice::slice_to_vec(
            vstd::slice::slice_subrange(bytes, MAX_FILE_NAME_SIZE, MAX_FILE_NAME_SIZE
                + MAX_PATH_SIZE),
        );
        let size = u64_from_le_bytes(vstd::slice::slice_subrange(bytes, 271, 279));
        let offset = u64_from_le_bytes(vstd::slice::slice_subrange(bytes, 279, 287));
        Ok(FileEntry { name, path, size, offset })
    }

    /// The display name: the name slot, zero padding dropped, read as UTF-8
    /// lossily.
    pub fn name(&self) -> (r: String)
        ensures
            r@ == lossy_decode(trim_zeros(self@.name)),
    {
        let k = trimmed_len(self.name.as_slice());
        bytes_to_string_lossy(vstd::slice::slice_subrange(self.name.as_slice(), 0, k))
    }

    /// The archive-relative path: the path slot, zero padding dropped, read as
    /// UTF-8 lossily.
    pub fn path(&self) -> (r: String)
        ensures
            r@ == lossy_decode(self@.rel_path()),
    {
        let k = trimmed_len(self.path.as_slice());
        bytes_to_string_lossy(vstd::slice::slice_subrange(self.path.as_slice(), 0, k))
    }

    /// Encodes this entry into its fixed-width record.
    pub fn to_bytes(&self) -> (r: Vec<u8>)
        requires
            self.wf(),
        ensures
            r@ == self@.enc(),
            r@.len() == FILE_ENTRY_SIZE,
    {
        let mut r = vstd::slice::slice_to_vec(self.name.as_slice());
        let mut path = vstd::slice::slice_to_vec(self.path.as_slice());
        r.append(&mut path);
        let mut size = u64_to_le_bytes(self.size);
        r.append(&mut size);
        let mut offset = u64_to_le_bytes(self.offset);
        r.append(&mut offset);
        proof {
            lemma_auto_spec_u64_to_from_le_bytes();
            assert(r@ =~= self@.enc());
        }
        r
    }

    /// Builds an entry from a display name and a path, zero-padding each into
    /// its slot; an oversized field is rejected, never silently truncated.
    pub fn new(name: &str, path: &str, size: u64, offset: u64) -> (r: Result<
        FileEntry,
        FileSystemError,
    >)
        ensures
            ({
                let nb = vstd::utf8::encode_utf8(name@);
                let pb = vstd::utf8::encode_utf8(path@);
                if nb.len() > MAX_FILE_NAME_SIZE {
                    r == Err::<FileEntry, FileSystemError>(FileSystemError::NameTooLong)
                } else if pb.len() > MAX_PATH_SIZE {
                    r == Err::<FileEntry, FileSystemError>(FileSystemError::PathTooLong)
                } else {
                    r matches Ok(e) && e.wf() && e@ == (EntryModel {
                        name: zero_pad(nb, MAX_FILE_NAME_SIZE as int),
                        path: zero_pad(pb, MAX_PATH_SIZE as int),
                        size: size,
                        offset: offset,
                    })
                }
            }),
    {
        let nb = name.as_bytes();
        if nb.len() > MAX_FILE_NAME_SIZE {
            return Err(FileSystemError::NameTooLong);
        }
        let pb = path.as_bytes();
        if pb.len() > MAX_PATH_SIZE {
            return Err(FileSystemError::PathTooLong);
        }
        Ok(FileEntry {
            name: pad_to(nb, MAX_FILE_NAME_SIZE),
            path: pad_to(pb, MAX_PATH_SIZE),
            size,
            offset,
        })
    }

    /// Records the ciphertext length once it is known.
    pub fn set_size(&mut self, size: u64)
        ensures
            final(self)@ == (EntryModel { size: size, ..old(self)@ }),
    {
        self.size = size;
    }

    /// Records the absolute payload offset once it is known.
    pub fn set_offset(&mut self, offset: u64)
        ensures
            final(self)@ == (EntryModel { offset: offset, ..old(self)@ }),
    {
        self.offset = offset;
    }
}

/// `path` with the leading directory `pre` removed: equal to `pre` becomes
/// empty, `pre` plus a separator is cut off, anything else is left unchanged.
pub open spec fn strip_path_prefix(pre: Seq<u8>, path: Seq<u8>) -> Seq<u8> {
    if pre.len() == 0 {
        path
    } else if path == pre {
        Seq::empty()
    } else if is_prefix_of(pre + seq![SLASH], path) {
        path.skip(pre.len() as int + 1)
    } else {
        path
    }
}

impl FileEntry {
    /// Rewrites the path slot to be relative to `prefix`: the prefix and its
    /// separator are cut off when present, and the path is left unchanged
    /// otherwise.
    pub fn strip_prefix(&mut self, prefix: &str) -> (r: Result<(), FileSystemError>)
        requires
            old(self).wf(),
        ensures
            r is Ok,
            final(self).wf(),
            final(self)@ == (EntryModel {
                path: zero_pad(
                    strip_path_prefix(
                        vstd::utf8::encode_utf8(prefix@),
                        old(self)@.rel_path(),
                    ),
                    MAX_PATH_SIZE as int,
                ),
                ..old(self)@
            }),
    {
        let pre = prefix.as_bytes();
        let k = trimmed_len(self.path.as_slice());
        let cur = vstd::slice::slice_subrange(self.path.as_slice(), 0, k);
        let ghost cur_seq = cur@;
        let ghost pre_seq = pre@;
        let stripped: &[u8] = if pre.len() == 0 {
            cur
        } else if bytes_eq(cur, pre) {
            vstd::slice::slice_subrange(cur, 0, 0)
        } else if cur.len() > pre.len() && starts_with_bytes(cur, pre) && *vstd::slice::slice_index_get(cur, pre.len()) == SLASH {
            proof {
                assert((pre_seq + seq![SLASH]).len() == pre_seq.len() + 1);
                assert(cur_seq.subrange(0, pre_seq.len() as int + 1) =~= pre_seq + seq![SLASH]);
            }
            vstd::slice::slice_subrange(cur, pre.len() + 1, cur.len())
        } else {
            proof {
                if is_prefix_of(pre_seq + seq![SLASH], cur_seq) {
                    let ps = pre_seq + seq![SLASH];
                    assert(cur_seq.subrange(0, ps.len() as int) == ps);
                    assert(forall|j: int|
                        0 <= j < ps.len() ==> cur_seq.subrange(0, ps.len() as int)[j] == ps[j]);
                    assert(cur_seq.subrange(0, pre_seq.len() as int) =~= pre_seq);
                    assert(cur_seq[pre_seq.len() as int] == ps[pre_seq.len() as int]);
                    assert(is_prefix_of(pre_seq, cur_seq));
                    assert(false);
                }
            }
            cur
        };
        self.path = pad_to(stripped, MAX_PATH_SIZE);
        Ok(())
    }
}

/// The fixed container header.
#[derive(Debug, Clone, Copy, PartialEq, Eq, Structural)]
pub struct Header {
    pub version: u8,
    pub number_of_files: u32,
    pub size: u64,
    pub data_offset: u64,
}

/// The fixed-width little-endian encoding of a header.
pub open spec fn header_enc(h: Header) -> Seq<u8> {
    seq![h.version] + spec_u32_to_le_bytes(h.number_of_files) + spec_u64_to_le_bytes(h.size)
        + spec_u64_to_le_bytes(h.data_offset)
}

/// Header decoded from the first `HEADER_SIZE` bytes of `b`.
pub open spec fn parse_header(b: Seq<u8>) -> Header {
    Header {
        version: b[0],
        number_of_files: spec_u32_from_le_bytes(b.subrange(1, 5)),
        size: spec_u64_from_le_bytes(b.subrange(5, 13)),
        data_offset: spec_u64_from_le_bytes(b.subrange(13, 21)),
    }
}

/// Decoding inverts encoding for the header.
pub proof fn lemma_parse_header_enc(h: Header)
    ensures
        header_enc(h).len() == HEADER_SIZE,
        parse_header(header_enc(h)) == h,
{
    lemma_auto_spec_u32_to_from_le_bytes();
    lemma_auto_spec_u64_to_from_le_bytes();
    let b = header_enc(h);
    assert(b[0] == h.version);
    assert(b.subrange(1, 5) =~= spec_u32_to_le_bytes(h.number_of_files));
    assert(b.subrange(5, 13) =~= spec_u64_to_le_bytes(h.size));
    assert(b.subrange(13, 21) =~= spec_u64_to_le_bytes(h.data_offset));
}

impl Header {
    /// Decodes the fixed header; a shorter buffer is a malformed record,
    /// never a crash.
    pub fn from_bytes(bytes: &[u8]) -> (r: Result<Header, FileSystemError>)
        ensures
            bytes@.len() < HEADER_SIZE ==> r == Err::<Header, FileSystemError>(
                FileSystemError::MalformedRecord,
            ),
            bytes@.len() >= HEADER_SIZE ==> r == Ok::<Header, FileSystemError>(parse_header(
                bytes@,
            )),
    {
        if bytes.len() < HEADER_SIZE {
            return Err(FileSystemError::MalformedRecord);
        }
        let version = *vstd::slice::slice_index_get(bytes, 0);
        let number_of_files = u32_from_le_bytes(vstd::slice::slice_subrange(bytes, 1, 5));
        let size = u64_from_le_bytes(vstd::slice::slice_subrange(bytes, 5, 13));
        let data_offset = u64_from_le_bytes(vstd::slice::slice_subrange(bytes, 13, 21));
        Ok(Header { version, number_of_files, size, data_offset })
    }

    /// Encodes the header into its fixed-width record.
    pub fn to_bytes(&self) -> (r: Vec<u8>)
        ensures
            r@ == header_enc(*self),
            r@.len() == HEADER_SIZE,
    {
        let mut r: Vec<u8> = Vec::new();
        r.push(self.version);
        let mut count = u32_to_le_bytes(self.number_of_files);
        r.append(&mut count);
        let mut size = u64_to_le_bytes(self.size);
        r.append(&mut size);
        let mut data_offset = u64_to_le_bytes(self.data_offset);
        r.append(&mut data_offset);
        proof {
            assert(r@ =~= header_enc(*self));
        }
        r
    }
}

/// One regular file discovered under the source directory: its display name,
/// its provisional absolute path, and its plaintext bytes.
pub struct SourceFile {
    pub name: String,
    pub path: String,
    pub content: Vec<u8>,
}

/// Mathematical image of a source file.
pub ghost struct SourceModel {
    pub name: Seq<char>,
    pub path: Seq<char>,
    pub content: Seq<u8>,
}

impl View for SourceFile {
    type V = SourceModel;

    open spec fn view(&self) -> SourceModel {
        SourceModel { name: self.name@, path: self.path@, content: self.content@ }
    }
}

/// The images of a list of source files.
pub open spec fn source_models(files: Seq<SourceFile>) -> Seq<SourceModel> {
    files.map_values(|f: SourceFile| f@)
}

/// Byte offset where the payload region begins in a container of `n` entries:
/// right after the header and the entry table.
pub open spec fn table_end(n: int) -> int {
    HEADER_SIZE + FILE_ENTRY_SIZE * n
}

/// Length of the blob a plaintext becomes: nonce, ciphertext, tag.
pub open spec fn blob_len(f: SourceModel) -> int {
    f.content.len() + NONCE_SIZE + TAG_SIZE
}

/// Total length of the payload region for these files.
pub open spec fn payload_total(files: Seq<SourceModel>) -> int
    decreases files.len(),
{
    if files.len() == 0 {
        0
    } else {
        payload_total(files.drop_last()) + blob_len(files.last())
    }
}

/// Absolute offset of file `i`'s blob in the container.
pub open spec fn planned_offset(files: Seq<SourceModel>, i: int) -> int {
    table_end(files.len() as int) + payload_total(files.take(i))
}

/// Every name fits its slot and every path fits its slot.
pub open spec fn slots_fit(files: Seq<SourceModel>) -> bool {
    forall|i: int|
        0 <= i < files.len() ==> (#[trigger] vstd::utf8::encode_utf8(files[i].name).len())
            <= MAX_FILE_NAME_SIZE && vstd::utf8::encode_utf8(files[i].path).len() <= MAX_PATH_SIZE
}

/// Entry record the writer plans for file `i` of `files`, relative to the
/// source directory `dir`.
pub open spec fn planned_entry(dir: Seq<char>, files: Seq<SourceModel>, i: int) -> EntryModel {
    EntryModel {
        name: zero_pad(vstd::utf8::encode_utf8(files[i].name), MAX_FILE_NAME_SIZE as int),
        path: zero_pad(
            strip_path_prefix(
                vstd::utf8::encode_utf8(dir),
                trim_zeros(zero_pad(vstd::utf8::encode_utf8(files[i].path), MAX_PATH_SIZE as int)),
            ),
            MAX_PATH_SIZE as int,
        ),
        size: blob_len(files[i]) as u64,
        offset: planned_offset(files, i) as u64,
    }
}

/// Entry record stored at index `i` of the container's table.
pub open spec fn entry_at(c: Seq<u8>, i: int) -> EntryModel {
    parse_entry(c.subrange(table_end(i), table_end(i + 1)))
}

pub proof fn lemma_payload_total_nonneg(files: Seq<SourceModel>)
    ensures
        payload_total(files) >= 0,
    decreases files.len(),
{
    if files.len() > 0 {
        lemma_payload_total_nonneg(files.drop_last());
    }
}

pub proof fn lemma_payload_total_take_succ(files: Seq<SourceModel>, i: int)
    requires
        0 <= i < files.len(),
    ensures
        payload_total(files.take(i + 1)) == payload_total(files.take(i)) + blob_len(files[i]),
{
    assert(files.take(i + 1).drop_last() =~= files.take(i));
    assert(files.take(i + 1).last() == files[i]);
}

pub proof fn lemma_payload_total_mono(files: Seq<SourceModel>, i: int)
    requires
        0 <= i <= files.len(),
    ensures
        payload_total(files.take(i)) <= payload_total(files),
        payload_total(files.take(i)) >= 0,
    decreases files.len() - i,
{
    lemma_payload_total_nonneg(files.take(i));
    if i == files.len() {
        assert(files.take(i) =~= files);
    } else {
        lemma_payload_total_take_succ(files, i);
        lemma_payload_total_nonneg(files.take(i + 1).drop_last());
        lemma_payload_total_mono(files, i + 1);
    }
}

/// Everything `create` guarantees of a finished container `c` built from
/// `files` under `key`, relative to source directory `dir`.
pub open spec fn created(dir: Seq<char>, files: Seq<SourceModel>, key: Seq<u8>, c: Seq<u8>) -> bool {
    let n = files.len() as int;
    &&& c.len() == table_end(n) + payload_total(files)
    &&& parse_header(c) == (Header {
        version: ARCHIVE_VERSION,
        number_of_files: n as u32,
        size: c.len() as u64,
        data_offset: table_end(n) as u64,
    })
    &&& forall|i: int| 0 <= i < n ==> #[trigger] entry_at(c, i) == planned_entry(dir, files, i)
    &&& forall|i: int|
        0 <= i < n ==> #[trigger] blob_plaintext(
            key,
            c.subrange(planned_offset(files, i), planned_offset(files, i) + blob_len(files[i])),
        ) == Some(files[i].content)
}

/// Builds the sealed container for one source directory.
pub struct ArchiveCreator {
    directory_path: String,
    file_path: String,
    enc_utils: EncUtils,
}

impl ArchiveCreator {
    /// The stored key is usable.
    pub closed spec fn wf(self) -> bool {
        self.enc_utils.wf()
    }

    /// The source directory this creator packages.
    pub closed spec fn spec_directory_path(self) -> Seq<char> {
        self.directory_path@
    }

    /// The key the payloads are sealed under.
    pub closed spec fn spec_key(self) -> Seq<u8> {
        self.enc_utils.key@
    }

    /// Checks the writer's preconditions and the key, and remembers the
    /// source and destination paths. The caller reports whether the source is
    /// a directory and whether the destination already exists, since only the
    /// surrounding storage can see that.
    pub fn new(
        directory_path: &str,
        file_path: &str,
        key: EncKey,
        overwrite: bool,
        source_is_dir: bool,
        destination_exists: bool,
    ) -> (r: Result<ArchiveCreator, FileSystemError>)
        ensures
            !source_is_dir ==> r == Err::<ArchiveCreator, FileSystemError>(
                FileSystemError::NotADirectory,
            ),
            source_is_dir && destination_exists && !overwrite ==> r == Err::<
                ArchiveCreator,
                FileSystemError,
            >(FileSystemError::DestinationExists),
            source_is_dir && (!destination_exists || overwrite) && key@.len()
                != crate::enc_utils::MAX_ENC_KEY_SIZE ==> r == Err::<
                ArchiveCreator,
                FileSystemError,
            >(FileSystemError::InvalidKeySize),
            source_is_dir && (!destination_exists || overwrite) && key@.len()
                == crate::enc_utils::MAX_ENC_KEY_SIZE ==> (r matches Ok(a) && a.wf()
                && a.spec_directory_path() == directory_path@ && a.spec_key() == key@
                && a.spec_file_path() == file_path@),
    {
        if !source_is_dir {
            return Err(FileSystemError::NotADirectory);
        }
        if destination_exists && !overwrite {
            return Err(FileSystemError::DestinationExists);
        }
        let enc_utils = match EncUtils::new(key) {
            Ok(e) => e,
            Err(e) => {
                return Err(e);
            },
        };
        Ok(ArchiveCreator {
            directory_path: directory_path.to_owned(),
            file_path: file_path.to_owned(),
            enc_utils,
        })
    }

    /// The destination path the finished container is meant for.
    pub closed spec fn spec_file_path(self) -> Seq<char> {
        self.file_path@
    }

    /// The destination path, for the caller that writes the container out.
    pub fn file_path(&self) -> (r: &String)
        ensures
            r@ == self.spec_file_path(),
    {
        &self.file_path
    }

    /// Packages the given source files into one container: a header, a
    /// fixed-width entry table, and one encrypted blob per file, each entry
    /// keyed by its path made relative to the source directory.
    pub fn create(&self, files: &Vec<SourceFile>) -> (r: Result<Vec<u8>, FileSystemError>)
        requires
            self.wf(),
            files@.len() <= 0xFFFF_FFFF,
            forall|i: int|
                0 <= i < files@.len() ==> (#[trigger] files@[i].content@.len())
                    <= MAX_PLAINTEXT_SIZE,
            table_end(files@.len() as int) + payload_total(source_models(files@)) <= u64::MAX,
        ensures
            ({
                let fm = source_models(files@);
                &&& (r matches Ok(c) ==> created(self.spec_directory_path(), fm, self.spec_key(), c@))
                &&& (r is Ok <==> fm.len() > 0 && slots_fit(fm))
                &&& (r == Err::<Vec<u8>, FileSystemError>(FileSystemError::EmptyArchive) <==> fm.len()
                    == 0)
                &&& (r == Err::<Vec<u8>, FileSystemError>(FileSystemError::NameTooLong) ==> exists|i: int|
                    0 <= i < fm.len() && (#[trigger] vstd::utf8::encode_utf8(fm[i].name).len())
                        > MAX_FILE_NAME_SIZE)
                &&& (r == Err::<Vec<u8>, FileSystemError>(FileSystemError::PathTooLong) ==> exists|i: int|
                    0 <= i < fm.len() && (#[trigger] vstd::utf8::encode_utf8(fm[i].path).len())
                        > MAX_PATH_SIZE)
                &&& (r is Err ==> r == Err::<Vec<u8>, FileSystemError>(FileSystemError::EmptyArchive)
                    || r == Err::<Vec<u8>, FileSystemError>(FileSystemError::NameTooLong)
                    || r == Err::<Vec<u8>, FileSystemError>(FileSystemError::PathTooLong))
            }),
    {
        let ghost fm = source_models(files@);
        let n: usize = files.len();
        if n == 0 {
            return Err(FileSystemError::EmptyArchive);
        }
        proof {
            lemma_payload_total_nonneg(fm);
        }
        let data_offset: u64 = HEADER_SIZE as u64 + FILE_ENTRY_SIZE as u64 * n as u64;
        let mut table: Vec<u8> = Vec::new();
        let mut payloads: Vec<u8> = Vec::new();
        let mut i: usize = 0;
        while i < n
            invariant
                self.wf(),
                n == files@.len(),
                1 <= n <= 0xFFFF_FFFF,
                fm == source_models(files@),
                forall|k: int|
                    0 <= k < files@.len() ==> (#[trigger] files@[k].content@.len())
                        <= MAX_PLAINTEXT_SIZE,
                table_end(n as int) + payload_total(fm) <= u64::MAX,
                data_offset == table_end(n as int),
                0 <= i <= n,
                table@.len() == FILE_ENTRY_SIZE * i,
                payloads@.len() == payload_total(fm.take(i as int)),
                forall|k: int|
                    0 <= k < i ==> (#[trigger] planned_entry(self.spec_directory_path(), fm, k)).wf(),
                forall|k: int|
                    0 <= k < i ==> #[trigger] table@.subrange(
                        FILE_ENTRY_SIZE * k,
                        FILE_ENTRY_SIZE * (k + 1),
                    ) == planned_entry(self.spec_directory_path(), fm, k).enc(),
                forall|k: int|
                    0 <= k < i ==> #[trigger] blob_plaintext(
                        self.spec_key(),
                        payloads@.subrange(
                            payload_total(fm.take(k)),
                            payload_total(fm.take(k)) + blob_len(fm[k]),
                        ),
                    ) == Some(fm[k].content),
                forall|k: int|
                    0 <= k < i ==> (#[trigger] vstd::utf8::encode_utf8(fm[k].name).len())
                        <= MAX_FILE_NAME_SIZE && vstd::utf8::encode_utf8(fm[k].path).len()
                        <= MAX_PATH_SIZE,
            decreases n - i,
        {
            proof {
                lemma_payload_total_mono(fm, i as int);
                lemma_payload_total_take_succ(fm, i as int);
            }
            let f = &files[i];
            let mut entry = match FileEntry::new(f.name.as_str(), f.path.as_str(), f.content.len()
                as u64, 0) {
                Ok(e) => e,
                Err(e) => {
                    proof {
                        let ii = i as int;
                        assert(fm[ii] == files@[ii]@);
                        if vstd::utf8::encode_utf8(fm[ii].name).len() > MAX_FILE_NAME_SIZE {
                            assert(!slots_fit(fm));
                        } else {
                            assert(vstd::utf8::encode_utf8(fm[ii].path).len() > MAX_PATH_SIZE);
                            assert(!slots_fit(fm));
                        }
                    }
                    return Err(e);
                },
            };
            let content = vstd::slice::slice_to_vec(f.content.as_slice());
            let mut blob = match self.enc_utils.encrypt(content) {
                Ok(b) => b,
                Err(e) => {
                    return Err(e);
                },
            };
            let offset: u64 = data_offset + payloads.len() as u64;
            entry.set_size(blob.len() as u64);
            entry.set_offset(offset);
            match entry.strip_prefix(self.directory_path.as_str()) {
                Ok(()) => {},
                Err(e) => {
                    return Err(e);
                },
            }
            proof {
                assert(entry@ == planned_entry(self.spec_directory_path(), fm, i as int));
                assert(planned_entry(self.spec_directory_path(), fm, i as int).wf());
            }
            let mut record = entry.to_bytes();
            let ghost old_table = table@;
            table.append(&mut record);
            let ghost old_payloads = payloads@;
            let ghost this_blob = blob@;
            payloads.append(&mut blob);
            proof {
                assert forall|k: int| 0 <= k < i + 1 implies #[trigger] table@.subrange(
                    FILE_ENTRY_SIZE * k,
                    FILE_ENTRY_SIZE * (k + 1),
                ) == planned_entry(self.spec_directory_path(), fm, k).enc() by {
                    if k < i {
                        assert(table@.subrange(FILE_ENTRY_SIZE * k, FILE_ENTRY_SIZE * (k + 1))
                            =~= old_table.subrange(FILE_ENTRY_SIZE * k, FILE_ENTRY_SIZE * (k + 1)));
                    } else {
                        assert(table@.subrange(FILE_ENTRY_SIZE * k, FILE_ENTRY_SIZE * (k + 1))
                            =~= entry@.enc());
                    }
                }
                assert forall|k: int| 0 <= k < i + 1 implies #[trigger] blob_plaintext(
                    self.spec_key(),
                    payloads@.subrange(
                        payload_total(fm.take(k)),
                        payload_total(fm.take(k)) + blob_len(fm[k]),
                    ),
                ) == Some(fm[k].content) by {
                    lemma_payload_total_mono(fm, k);
                    if k < i {
                        lemma_payload_total_take_succ(fm, k);
                        lemma_payload_total_mono(fm.take(i as int), k);
                        lemma_payload_total_mono(fm.take(i as int), k + 1);
                        assert(fm.take(i as int).take(k) =~= fm.take(k));
                        assert(fm.take(i as int).take(k + 1) =~= fm.take(k + 1));
                        assert(payload_total(fm.take(k)) + blob_len(fm[k]) <= payload_total(
                            fm.take(i as int),
                        ));
                        assert(payloads@.subrange(
                            payload_total(fm.take(k)),
                            payload_total(fm.take(k)) + blob_len(fm[k]),
                        ) =~= old_payloads.subrange(
                            payload_total(fm.take(k)),
                            payload_total(fm.take(k)) + blob_len(fm[k]),
                        ));
                    } else {
                        assert(payloads@.subrange(
                            payload_total(fm.take(k)),
                            payload_total(fm.take(k)) + blob_len(fm[k]),
                        ) =~= this_blob);
                    }
                }
            }
            i += 1;
        }
        proof {
            assert(fm.take(n as int) =~= fm);
        }
        let total: u64 = data_offset + payloads.len() as u64;
        let header = Header {
            version: ARCHIVE_VERSION,
            number_of_files: n as u32,
            size: total,
            data_offset,
        };
        let mut c = header.to_bytes();
        let ghost header_bytes = c@;
        let ghost table_seq = table@;
        let ghost payload_seq = payloads@;
        c.append(&mut table);
        c.append(&mut payloads);
        proof {
            let dir = self.spec_directory_path();
            let key = self.spec_key();
            let nn = n as int;
            lemma_parse_header_enc(header);
            assert(c@.subrange(0, HEADER_SIZE as int) =~= header_enc(header));
            assert(parse_header(c@) == header) by {
                let hb = header_enc(header);
                assert(c@[0] == hb[0]);
                assert(c@.subrange(1, 5) =~= hb.subrange(1, 5));
                assert(c@.subrange(5, 13) =~= hb.subrange(5, 13));
                assert(c@.subrange(13, 21) =~= hb.subrange(13, 21));
            }
            assert forall|k: int| 0 <= k < nn implies #[trigger] entry_at(c@, k) == planned_entry(
                dir,
                fm,
                k,
            ) by {
                assert(c@.subrange(table_end(k), table_end(k + 1)) =~= table_seq.subrange(
                    FILE_ENTRY_SIZE * k,
                    FILE_ENTRY_SIZE * (k + 1),
                ));
                lemma_parse_entry_enc(planned_entry(dir, fm, k));
            }
            assert forall|k: int| 0 <= k < nn implies #[trigger] blob_plaintext(
                key,
                c@.subrange(planned_offset(fm, k), planned_offset(fm, k) + blob_len(fm[k])),
            ) == Some(fm[k].content) by {
                lemma_payload_total_mono(fm, k);
                lemma_payload_total_take_succ(fm, k);
                lemma_payload_total_mono(fm, k + 1);
                assert(c@.subrange(planned_offset(fm, k), planned_offset(fm, k) + blob_len(fm[k]))
                    =~= payload_seq.subrange(
                    payload_total(fm.take(k)),
                    payload_total(fm.take(k)) + blob_len(fm[k]),
                ));
            }
            assert(created(dir, fm, key, c@));
        }
        Ok(c)
    }
}

/// The whole header and table validation `open` performs: a readable header,
/// the supported version, at least one file, a total size and a data offset
/// no smaller than the header plus the table, the table itself present, and a
/// usable key.
pub open spec fn open_ok(c: Seq<u8>, key: Seq<u8>) -> bool {
    let h = parse_header(c);
    &&& c.len() >= HEADER_SIZE
    &&& h.version == ARCHIVE_VERSION
    &&& h.number_of_files != 0
    &&& h.size >= table_end(h.number_of_files as int)
    &&& h.data_offset >= table_end(h.number_of_files as int)
    &&& c.len() >= table_end(h.number_of_files as int)
    &&& key.len() == crate::enc_utils::MAX_ENC_KEY_SIZE
}

/// The entry table of a container, record by record.
pub open spec fn archive_entries(c: Seq<u8>) -> Seq<EntryModel> {
    Seq::new(parse_header(c).number_of_files as nat, |i: int| entry_at(c, i))
}

/// The entry the index serves for relative path `p`: the last one keyed by
/// `p`, since a later duplicate overwrites an earlier one.
pub open spec fn lookup(entries: Seq<EntryModel>, p: Seq<u8>) -> Option<EntryModel>
    decreases entries.len(),
{
    if entries.len() == 0 {
        None
    } else if entries.last().rel_path() == p {
        Some(entries.last())
    } else {
        lookup(entries.drop_last(), p)
    }
}

/// What reading relative path `p` out of container `c` under `key` yields:
/// the decrypted payload of the entry keyed by `p`, when that entry's blob
/// lies inside the container and authenticates.
pub open spec fn read_model(c: Seq<u8>, key: Seq<u8>, p: Seq<u8>) -> Option<Seq<u8>> {
    match lookup(archive_entries(c), p) {
        Some(e) => if e.offset + e.size <= c.len() {
            blob_plaintext(key, c.subrange(e.offset as int, e.offset + e.size))
        } else {
            None
        },
        None => None,
    }
}

/// A sealed container loaded into memory: the parsed header, the parsed
/// entry table, and the engine that opens its payloads.
pub struct ArchiveFileSystem {
    container: Vec<u8>,
    header: Header,
    entries: Vec<FileEntry>,
    enc_utils: EncUtils,
}

/// `a` is what `open` builds from container bytes `c` and `key`.
pub open spec fn is_open_result(a: ArchiveFileSystem, c: Seq<u8>, key: Seq<u8>) -> bool {
    a.wf() && a.spec_container() == c && a.spec_key() == key
}

impl ArchiveFileSystem {
    /// The validated container bytes, the header and every entry parsed from
    /// them, and a usable key.
    #[verifier::type_invariant]
    pub closed spec fn wf(self) -> bool {
        &&& open_ok(self.container@, self.enc_utils.key@)
        &&& self.enc_utils.wf()
        &&& self.header == parse_header(self.container@)
        &&& self.entries@.len() == self.header.number_of_files as int
        &&& forall|i: int|
            0 <= i < self.entries@.len() ==> (#[trigger] self.entries@[i])@ == entry_at(
                self.container@,
                i,
            ) && self.entries@[i].wf()
    }

    /// The container bytes this handle serves.
    pub closed spec fn spec_container(self) -> Seq<u8> {
        self.container@
    }

    /// The key its payloads are opened under.
    pub closed spec fn spec_key(self) -> Seq<u8> {
        self.enc_utils.key@
    }

    /// The parsed entry records, in table order.
    pub closed spec fn index_models(self) -> Seq<EntryModel> {
        self.entries@.map_values(|e: FileEntry| e@)
    }

    /// The in-memory index is exactly the table parsed from the container.
    pub proof fn lemma_index_is_parsed(self)
        requires
            self.wf(),
        ensures
            self.index_models() == archive_entries(self.spec_container()),
    {
        assert(self.index_models() =~= archive_entries(self.spec_container()));
    }

    /// Validates and loads a container: decodes the header, rejects an
    /// unsupported version, an empty table, or sizes inconsistent with the
    /// header-plus-table minimum, then parses exactly `file_count` records
    /// and checks the key.
    pub fn open(container: Vec<u8>, key: EncKey) -> (r: Result<ArchiveFileSystem, FileSystemError>)
        ensures
            r is Ok <==> open_ok(container@, key@),
            r matches Ok(a) ==> is_open_result(a, container@, key@),
            ({
                let h = parse_header(container@);
                let min = table_end(h.number_of_files as int);
                match r {
                    Ok(_) => true,
                    Err(FileSystemError::MalformedRecord) => container@.len() < HEADER_SIZE || (
                    h.version == ARCHIVE_VERSION && h.number_of_files != 0 && h.size >= min
                        && h.data_offset >= min && container@.len() < min),
                    Err(FileSystemError::ValidationError) => container@.len() >= HEADER_SIZE && (
                    h.version != ARCHIVE_VERSION || h.number_of_files == 0 || h.size < min
                        || h.data_offset < min),
                    Err(FileSystemError::InvalidKeySize) => container@.len() >= HEADER_SIZE
                        && h.version == ARCHIVE_VERSION && h.number_of_files != 0 && h.size >= min
                        && h.data_offset >= min && container@.len() >= min && key@.len()
                        != crate::enc_utils::MAX_ENC_KEY_SIZE,
                    Err(_) => false,
                }
            }),
    {
        let header = match Header::from_bytes(container.as_slice()) {
            Ok(h) => h,
            Err(e) => {
                return Err(e);
            },
        };
        if header.version != ARCHIVE_VERSION {
            return Err(FileSystemError::ValidationError);
        }
        if header.number_of_files == 0 {
            return Err(FileSystemError::ValidationError);
        }
        let n: usize = header.number_of_files as usize;
        let min: u64 = HEADER_SIZE as u64 + FILE_ENTRY_SIZE as u64 * n as u64;
        if header.size < min {
            return Err(FileSystemError::ValidationError);
        }
        if header.data_offset < min {
            return Err(FileSystemError::ValidationError);
        }
        if (container.len() as u64) < min {
            return Err(FileSystemError::MalformedRecord);
        }
        let mut entries: Vec<FileEntry> = Vec::new();
        let clen: usize = container.len();
        let mut i: usize = 0;
        while i < n
            invariant
                n == parse_header(container@).number_of_files as int,
                container@.len() >= table_end(n as int),
                container@.len() == clen,
                header == parse_header(container@),
                0 <= i <= n,
                entries@.len() == i,
                forall|k: int|
                    0 <= k < i ==> (#[trigger] entries@[k])@ == entry_at(container@, k)
                        && entries@[k].wf(),
            decreases n - i,
        {
            proof {
                vstd::arithmetic::mul::lemma_mul_inequality(i as int + 1, n as int,
                    FILE_ENTRY_SIZE as int);
                assert((i as int + 1) * FILE_ENTRY_SIZE == i as int * FILE_ENTRY_SIZE
                    + FILE_ENTRY_SIZE);
            }
            let start: usize = HEADER_SIZE + FILE_ENTRY_SIZE * i;
            let record = vstd::slice::slice_subrange(container.as_slice(), start, start
                + FILE_ENTRY_SIZE);
            let entry = match FileEntry::from_bytes(record) {
                Ok(e) => e,
                Err(_) => {
                    return Err(FileSystemError::MalformedRecord);
                },
            };
            entries.push(entry);
            i += 1;
        }
        let enc_utils = match EncUtils::new(key) {
            Ok(e) => e,
            Err(e) => {
                return Err(e);
            },
        };
        Ok(ArchiveFileSystem { container, header, entries, enc_utils })
    }

    /// The parsed header.
    pub fn header(&self) -> (h: Header)
        ensures
            h == parse_header(self.spec_container()),
    {
        proof {
            use_type_invariant(self);
        }
        self.header
    }

    /// How many entries the index holds.
    pub fn entry_count(&self) -> (n: usize)
        ensures
            n == self.index_models().len(),
    {
        self.entries.len()
    }

    /// Index of the entry that serves relative path `pb`: the last entry of
    /// the table keyed by it.
    fn find_entry(&self, pb: &[u8]) -> (r: Option<usize>)
        ensures
            ({
                let ents = archive_entries(self.spec_container());
                match r {
                    Some(idx) => idx < ents.len() && lookup(ents, pb@) == Some(ents[idx as int]),
                    None => lookup(ents, pb@) is None,
                }
            }),
    {
        proof {
            use_type_invariant(self);
            self.lemma_index_is_parsed();
        }
        let ghost ents = archive_entries(self.spec_container());
        let mut j: usize = self.entries.len();
        proof {
            assert(ents.take(j as int) =~= ents);
        }
        while j > 0
            invariant
                self.wf(),
                ents == archive_entries(self.spec_container()),
                self.index_models() == ents,
                0 <= j <= ents.len(),
                lookup(ents, pb@) == lookup(ents.take(j as int), pb@),
            decreases j,
        {
            let e = &self.entries[j - 1];
            let k = trimmed_len(e.path.as_slice());
            let cur = vstd::slice::slice_subrange(e.path.as_slice(), 0, k);
            proof {
                assert(self.index_models()[j - 1] == self.entries@[j - 1]@);
                assert(ents.take(j as int).last() == e@);
                assert(ents.take(j as int).drop_last() =~= ents.take(j as int - 1));
            }
            if bytes_eq(cur, pb) {
                proof {
                    assert(e@.rel_path() == pb@);
                    assert(lookup(ents.take(j as int), pb@) == Some(e@));
                }
                return Some(j - 1);
            }
            j -= 1;
        }
        proof {
            assert(ents.take(0) =~= Seq::<EntryModel>::empty());
        }
        None
    }

    /// Serves the payload of the entry keyed by exactly this relative path:
    /// absent paths are `NotFound`, a blob reaching past the container is a
    /// storage failure, and the blob is decrypted with every failure
    /// reported, never flattened to empty bytes.
    pub fn read_file(&self, path: &str) -> (r: Result<FileContent, FileSystemError>)
        ensures
            ({
                let c = self.spec_container();
                let key = self.spec_key();
                let p = vstd::utf8::encode_utf8(path@);
                match r {
                    Ok(content) => read_model(c, key, p) == Some(content@),
                    Err(FileSystemError::NotFound) => lookup(archive_entries(c), p) is None,
                    Err(FileSystemError::IOFailure) => (lookup(archive_entries(c), p) matches Some(
                        e,
                    ) && e.offset + e.size > c.len()),
                    Err(FileSystemError::TruncatedCiphertext) => (lookup(archive_entries(c), p)
                        matches Some(e) && e.offset + e.size <= c.len() && e.size < NONCE_SIZE),
                    Err(FileSystemError::AuthenticationFailed) => (lookup(archive_entries(c), p)
                        matches Some(e) && e.offset + e.size <= c.len() && read_model(c, key, p)
                        is None),
                    Err(_) => false,
                }
            }),
            r is Ok <==> read_model(
                self.spec_container(),
                self.spec_key(),
                vstd::utf8::encode_utf8(path@),
            ) is Some,
    {
        proof {
            use_type_invariant(self);
            self.lemma_index_is_parsed();
        }
        let ghost ents = archive_entries(self.spec_container());
        let pb = path.as_bytes();
        let idx = match self.find_entry(pb) {
            Some(i) => i,
            None => {
                return Err(FileSystemError::NotFound);
            },
        };
        let entry = &self.entries[idx];
        proof {
            assert(entry@ == ents[idx as int]);
        }
        let clen: u64 = self.container.len() as u64;
        if entry.size > clen || entry.offset > clen - entry.size {
            return Err(FileSystemError::IOFailure);
        }
        let start: usize = entry.offset as usize;
        let end: usize = (entry.offset + entry.size) as usize;
        let blob = vstd::slice::slice_to_vec(
            vstd::slice::slice_subrange(self.container.as_slice(), start, end),
        );
        self.enc_utils.decrypt(blob)
    }

    /// The container is immutable once sealed: writing always fails.
    pub fn write_file(&self, _path: &str, _content: FileContent) -> (r: Result<
        (),
        FileSystemError,
    >)
        ensures
            r == Err::<(), FileSystemError>(FileSystemError::ReadOnlyMedium),
    {
        Err(FileSystemError::ReadOnlyMedium)
    }

    /// The container is immutable once sealed: deleting always fails.
    pub fn delete_file(&self, _path: &str) -> (r: Result<(), FileSystemError>)
        ensures
            r == Err::<(), FileSystemError>(FileSystemError::ReadOnlyMedium),
    {
        Err(FileSystemError::ReadOnlyMedium)
    }
}

/// One row of the byte-level listing model.
pub ghost struct InfoModel {
    pub name: Seq<u8>,
    pub path: Seq<u8>,
    pub size: u64,
    pub is_directory: bool,
}

/// The listing row a packaged file becomes.
pub open spec fn file_info_of(e: EntryModel) -> InfoModel {
    InfoModel { name: trim_zeros(e.name), path: e.rel_path(), size: e.size, is_directory: false }
}

/// The file rows of a listing under query prefix `q`: every entry whose
/// relative path starts with `q`, in table order.
pub open spec fn listed_files(entries: Seq<EntryModel>, q: Seq<u8>) -> Seq<InfoModel>
    decreases entries.len(),
{
    if entries.len() == 0 {
        Seq::empty()
    } else {
        listed_files(entries.drop_last(), q) + (if is_prefix_of(q, entries.last().rel_path()) {
            seq![file_info_of(entries.last())]
        } else {
            Seq::empty()
        })
    }
}

/// The pseudo-directory a relative path `k` suggests under query prefix `q`:
/// the first path segment of `k` past `q` (and past one separator), provided
/// a separator follows it — as the segment's bytes and the full directory
/// path up to it.
pub open spec fn dir_candidate(q: Seq<u8>, k: Seq<u8>) -> Option<(Seq<u8>, Seq<u8>)> {
    if is_prefix_of(q, k) && k != q {
        let consumed = if k.len() > q.len() && k[q.len() as int] == SLASH {
            q.len() + 1
        } else {
            q.len()
        };
        let rest = k.skip(consumed as int);
        let p = first_pos(rest, SLASH);
        if p < rest.len() {
            Some((rest.subrange(0, p), k.subrange(0, consumed + p)))
        } else {
            None
        }
    } else {
        None
    }
}

/// Whether some row already carries this path.
pub open spec fn contains_path(infos: Seq<InfoModel>, p: Seq<u8>) -> bool {
    exists|i: int| 0 <= i < infos.len() && infos[i].path == p
}

/// Folds the pseudo-directory rows over the entries, deduplicating against
/// everything already listed.
pub open spec fn add_dirs(entries: Seq<EntryModel>, q: Seq<u8>, acc: Seq<InfoModel>) -> Seq<
    InfoModel,
>
    decreases entries.len(),
{
    if entries.len() == 0 {
        acc
    } else {
        let acc2 = match dir_candidate(q, entries[0].rel_path()) {
            Some(cand) => if contains_path(acc, cand.1) {
                acc
            } else {
                acc.push(
                    InfoModel { name: cand.0, path: cand.1, size: 0, is_directory: true },
                )
            },
            None => acc,
        };
        add_dirs(entries.skip(1), q, acc2)
    }
}

/// The full listing under query prefix `q`: the matching file rows, then the
/// synthesized pseudo-directories that are not already listed.
pub open spec fn list_model(entries: Seq<EntryModel>, q: Seq<u8>) -> Seq<InfoModel> {
    add_dirs(entries, q, listed_files(entries, q))
}

/// Whether any of the collected byte paths equals `x`.
fn any_path_eq(paths: &Vec<Vec<u8>>, x: &[u8]) -> (r: bool)
    ensures
        r == exists|i: int| 0 <= i < paths@.len() && (#[trigger] paths@[i])@ == x@,
{
    let n: usize = paths.len();
    let mut i: usize = 0;
    while i < n
        invariant
            0 <= i <= n,
            n == paths@.len(),
            forall|j: int| 0 <= j < i ==> (#[trigger] paths@[j])@ != x@,
        decreases n - i,
    {
        if bytes_eq(paths[i].as_slice(), x) {
            return true;
        }
        i += 1;
    }
    false
}

impl ArchiveFileSystem {
    /// Lists everything under a directory prefix: each entry whose relative
    /// path starts with the prefix as a file row, plus one synthesized
    /// pseudo-directory row per first path segment beyond the prefix,
    /// deduplicated against everything already listed.
    pub fn list_files(&self, directory: &str) -> (r: Result<Vec<FileInfo>, FileSystemError>)
        ensures
            r is Ok,
            ({
                let m = list_model(
                    archive_entries(self.spec_container()),
                    vstd::utf8::encode_utf8(directory@),
                );
                r matches Ok(infos) && infos@.len() == m.len() && forall|i: int|
                    0 <= i < m.len() ==> (#[trigger] infos@[i]).name@ == lossy_decode(m[i].name)
                        && infos@[i].path@ == lossy_decode(m[i].path) && infos@[i].size
                        == m[i].size && infos@[i].is_directory == m[i].is_directory
            }),
    {
        proof {
            use_type_invariant(self);
            self.lemma_index_is_parsed();
        }
        let ghost ents = archive_entries(self.spec_container());
        let qb = directory.as_bytes();
        let n: usize = self.entries.len();
        let mut infos: Vec<FileInfo> = Vec::new();
        let mut byte_paths: Vec<Vec<u8>> = Vec::new();
        let ghost mut gm: Seq<InfoModel> = Seq::empty();
        let mut i: usize = 0;
        while i < n
            invariant
                self.wf(),
                ents == archive_entries(self.spec_container()),
                self.index_models() == ents,
                n == ents.len(),
                0 <= i <= n,
                gm == listed_files(ents.take(i as int), qb@),
                infos@.len() == gm.len(),
                byte_paths@.len() == gm.len(),
                forall|t: int|
                    0 <= t < gm.len() ==> (#[trigger] infos@[t]).name@ == lossy_decode(gm[t].name)
                        && infos@[t].path@ == lossy_decode(gm[t].path) && infos@[t].size
                        == gm[t].size && infos@[t].is_directory == gm[t].is_directory,
                forall|t: int| 0 <= t < gm.len() ==> (#[trigger] byte_paths@[t])@ == gm[t].path,
            decreases n - i,
        {
            let e = &self.entries[i];
            proof {
                assert(self.index_models()[i as int] == self.entries@[i as int]@);
                assert(ents.take(i as int + 1).drop_last() =~= ents.take(i as int));
                assert(ents.take(i as int + 1).last() == e@);
            }
            let k = trimmed_len(e.path.as_slice());
            let kb = vstd::slice::slice_subrange(e.path.as_slice(), 0, k);
            if starts_with_bytes(kb, qb) {
                let info = FileInfo {
                    name: e.name(),
                    path: bytes_to_string_lossy(kb),
                    is_directory: false,
                    size: e.size,
                };
                infos.push(info);
                byte_paths.push(vstd::slice::slice_to_vec(kb));
                proof {
                    gm = gm.push(file_info_of(e@));
                    assert(listed_files(ents.take(i as int + 1), qb@) =~= gm);
                }
            } else {
                proof {
                    assert(listed_files(ents.take(i as int + 1), qb@) =~= gm);
                }
            }
            i += 1;
        }
        proof {
            assert(ents.take(n as int) =~= ents);
        }
        let mut i: usize = 0;
        while i < n
            invariant
                self.wf(),
                ents == archive_entries(self.spec_container()),
                self.index_models() == ents,
                n == ents.len(),
                0 <= i <= n,
                add_dirs(ents.skip(i as int), qb@, gm) == list_model(ents, qb@),
                infos@.len() == gm.len(),
                byte_paths@.len() == gm.len(),
                forall|t: int|
                    0 <= t < gm.len() ==> (#[trigger] infos@[t]).name@ == lossy_decode(gm[t].name)
                        && infos@[t].path@ == lossy_decode(gm[t].path) && infos@[t].size
                        == gm[t].size && infos@[t].is_directory == gm[t].is_directory,
                forall|t: int| 0 <= t < gm.len() ==> (#[trigger] byte_paths@[t])@ == gm[t].path,
            decreases n - i,
        {
            let e = &self.entries[i];
            proof {
                assert(self.index_models()[i as int] == self.entries@[i as int]@);
                assert(ents.skip(i as int).len() > 0);
                assert(ents.skip(i as int)[0] == e@);
                assert(ents.skip(i as int).skip(1) =~= ents.skip(i as int + 1));
            }
            let k = trimmed_len(e.path.as_slice());
            let kb = vstd::slice::slice_subrange(e.path.as_slice(), 0, k);
            let ghost kseq = kb@;
            if starts_with_bytes(kb, qb) && !bytes_eq(kb, qb) {
                proof {
                    if kseq.len() == qb@.len() {
                        assert(kseq.subrange(0, qb@.len() as int) =~= kseq);
                        assert(false);
                    }
                }
                let consumed: usize = if *vstd::slice::slice_index_get(kb, qb.len()) == SLASH {
                    qb.len() + 1
                } else {
                    qb.len()
                };
                let rest = vstd::slice::slice_subrange(kb, consumed, kb.len());
                proof {
                    assert(rest@ =~= kseq.skip(consumed as int));
                }
                let p = find_first(rest, SLASH);
                if p < rest.len() {
                    let seg = vstd::slice::slice_subrange(rest, 0, p);
                    let dp = vstd::slice::slice_subrange(kb, 0, consumed + p);
                    proof {
                        assert(seg@ =~= kseq.skip(consumed as int).subrange(0, p as int));
                        assert(dp@ =~= kseq.subrange(0, consumed + p));
                        assert(dir_candidate(qb@, e@.rel_path()) == Some((seg@, dp@)));
                    }
                    if !any_path_eq(&byte_paths, dp) {
                        proof {
                            assert(!contains_path(gm, dp@)) by {
                                if contains_path(gm, dp@) {
                                    let t = choose|t: int|
                                        0 <= t < gm.len() && gm[t].path == dp@;
                                    assert(byte_paths@[t]@ == dp@);
                                }
                            }
                        }
                        let info = FileInfo {
                            name: bytes_to_string_lossy(seg),
                            path: bytes_to_string_lossy(dp),
                            is_directory: true,
                            size: 0,
                        };
                        infos.push(info);
                        byte_paths.push(vstd::slice::slice_to_vec(dp));
                        proof {
                            gm = gm.push(
                                InfoModel { name: seg@, path: dp@, size: 0, is_directory: true },
                            );
                        }
                    } else {
                        proof {
                            assert(contains_path(gm, dp@)) by {
                                let t = choose|t: int|
                                    0 <= t < byte_paths@.len() && byte_paths@[t]@ == dp@;
                                assert(gm[t].path == dp@);
                            }
                        }
                    }
                } else {
                    proof {
                        assert(dir_candidate(qb@, e@.rel_path()) is None);
                    }
                }
            } else {
                proof {
                    assert(dir_candidate(qb@, e@.rel_path()) is None);
                }
            }
            i += 1;
        }
        proof {
            assert(ents.skip(n as int) =~= Seq::<EntryModel>::empty());
        }
        Ok(infos)
    }
}

impl FileSystem for ArchiveFileSystem {
    fn read_file(&self, path: &str) -> Result<FileContent, FileSystemError> {
        ArchiveFileSystem::read_file(self, path)
    }

    fn write_file(&self, path: &str, content: FileContent) -> Result<(), FileSystemError> {
        ArchiveFileSystem::write_file(self, path, content)
    }

    fn delete_file(&self, path: &str) -> Result<(), FileSystemError> {
        ArchiveFileSystem::delete_file(self, path)
    }

    fn list_files(&self, directory: &str) -> Result<Vec<FileInfo>, FileSystemError> {
        ArchiveFileSystem::list_files(self, directory)
    }
}

/// The relative path that file `j` of `files` is keyed by once packaged:
/// its path, slotted and unslotted, with the source directory stripped.
pub open spec fn planned_rel_path(dir: Seq<char>, files: Seq<SourceModel>, j: int) -> Seq<u8> {
    strip_path_prefix(
        vstd::utf8::encode_utf8(dir),
        trim_zeros(zero_pad(vstd::utf8::encode_utf8(files[j].path), MAX_PATH_SIZE as int)),
    )
}

/// With pairwise distinct keys, the index serves exactly entry `i` for entry
/// `i`'s own key.
pub proof fn lemma_lookup_distinct(ents: Seq<EntryModel>, i: int)
    requires
        0 <= i < ents.len(),
        forall|j1: int, j2: int|
            0 <= j1 < j2 < ents.len() ==> (#[trigger] ents[j1].rel_path()) != (
            #[trigger] ents[j2].rel_path()),
    ensures
        lookup(ents, ents[i].rel_path()) == Some(ents[i]),
    decreases ents.len(),
{
    if i < ents.len() - 1 {
        assert(ents.last().rel_path() != ents[i].rel_path());
        lemma_lookup_distinct(ents.drop_last(), i);
        assert(ents.drop_last()[i] == ents[i]);
    }
}

/// Round trip: a container created from source files whose packaged relative
/// paths are pairwise distinct and do not end in a zero byte opens under the
/// same key, and reading any packaged path yields that file's original
/// plaintext, byte for byte.
pub proof fn lemma_archive_round_trip(
    dir: Seq<char>,
    files: Seq<SourceModel>,
    key: Seq<u8>,
    c: Seq<u8>,
    i: int,
)
    requires
        created(dir, files, key, c),
        key.len() == crate::enc_utils::MAX_ENC_KEY_SIZE,
        files.len() <= 0xFFFF_FFFF,
        c.len() <= u64::MAX,
        slots_fit(files),
        0 <= i < files.len(),
        forall|j: int|
            0 <= j < files.len() ==> no_trailing_zero(#[trigger] planned_rel_path(dir, files, j)),
        forall|j1: int, j2: int|
            0 <= j1 < j2 < files.len() ==> (#[trigger] planned_rel_path(dir, files, j1)) != (
            #[trigger] planned_rel_path(dir, files, j2)),
    ensures
        open_ok(c, key),
        read_model(c, key, planned_rel_path(dir, files, i)) == Some(files[i].content),
{
    let n = files.len() as int;
    let h = parse_header(c);
    lemma_payload_total_nonneg(files);
    assert(h.number_of_files as int == n);
    assert(open_ok(c, key));
    let ents = archive_entries(c);
    assert(ents.len() == n);
    assert forall|j: int| 0 <= j < n implies (#[trigger] ents[j]) == planned_entry(dir, files, j)
        && ents[j].rel_path() == planned_rel_path(dir, files, j) by {
        assert(ents[j] == entry_at(c, j));
        assert(entry_at(c, j) == planned_entry(dir, files, j));
        let pb = vstd::utf8::encode_utf8(files[j].path);
        let slotted = zero_pad(pb, MAX_PATH_SIZE as int);
        lemma_trim_zeros_le(slotted);
        assert(pb.len() <= MAX_PATH_SIZE);
        assert(slotted.len() == MAX_PATH_SIZE);
        let rel = planned_rel_path(dir, files, j);
        assert(rel.len() <= MAX_PATH_SIZE);
        lemma_trim_zero_pad(rel, MAX_PATH_SIZE as int);
        assert(ents[j].rel_path() == trim_zeros(zero_pad(rel, MAX_PATH_SIZE as int)));
    }
    lemma_lookup_distinct(ents, i);
    assert(lookup(ents, planned_rel_path(dir, files, i)) == Some(ents[i]));
    let e = ents[i];
    lemma_payload_total_mono(files, i);
    lemma_payload_total_take_succ(files, i);
    lemma_payload_total_mono(files, i + 1);
    assert(planned_offset(files, i) + blob_len(files[i]) <= c.len());
    assert(e.offset as int == planned_offset(files, i));
    assert(e.size as int == blob_len(files[i]));
    assert(e.offset + e.size <= c.len());
    assert(blob_plaintext(key, c.subrange(e.offset as int, e.offset + e.size)) == Some(
        files[i].content,
    ));
}

/// Opening the same unmodified container with the same key always yields the
/// same index: the same entries with the same field values, in the same
/// order, and the same header.
pub proof fn lemma_open_deterministic(
    a1: ArchiveFileSystem,
    a2: ArchiveFileSystem,
    c: Seq<u8>,
    key: Seq<u8>,
)
    requires
        is_open_result(a1, c, key),
        is_open_result(a2, c, key),
    ensures
        a1.index_models() == a2.index_models(),
        a1.index_models() == archive_entries(c),
{
    a1.lemma_index_is_parsed();
    a2.lemma_index_is_parsed();
}

} // verus!
