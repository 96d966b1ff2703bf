//! The archive: named blobs bundled into one run of bytes, with a manifest
//! that says where each blob stands.
//!
//! An archive is the magic value, the number of entries, the length of the
//! manifest in bytes, the manifest, the blobs, and the length of the whole.
//! An entry of the manifest is the length of its name, the name, and the
//! offset and the length of its blob among the blobs.

use vstd::prelude::*;
use vstd::utf8::encode_utf8;
use crate::compiler::bytecode::{keys_of, position};
use crate::instructions::MAGIC_NUMBER;
use crate::vm::utils::{
    is_text_at,
    read_n_bytes_from_cursor,
    read_str_with_len,
    read_u32,
    spec_text_at,
    spec_u32_be,
    str_equal,
    write_bytes,
    write_u32,
};
use crate::vm::vm::spec_word;

verus! {

/// Where a blob stands among the blobs of an archive.
#[derive(Clone, Copy, Debug, PartialEq, Eq)]
pub struct Entry {
    /// The length of the blob in bytes.
    pub byte: u32,
    /// The place of the blob's first byte among the blobs.
    pub offset: u32,
}

/// The manifest of an archive, as a mathematical value: the entries with
/// their names, each name once.
pub type ManifestModel = Seq<(Seq<char>, Entry)>;

/// The manifest after an entry was set: a name that it holds gets the new
/// entry in its place, a new name comes after the others.
pub open spec fn spec_set_entry(manifest: ManifestModel, name: Seq<char>, entry: Entry) -> ManifestModel {
    let at = position(keys_of(manifest), name, 0);
    if at < manifest.len() {
        manifest.update(at, (name, entry))
    } else {
        manifest.push((name, entry))
    }
}

/// The entry of a name, if the manifest holds the name.
pub open spec fn spec_entry(manifest: ManifestModel, name: Seq<char>) -> Option<Entry> {
    let at = position(keys_of(manifest), name, 0);
    if at < manifest.len() {
        Some(manifest[at].1)
    } else {
        None
    }
}

/// The number of bytes of a manifest.
pub open spec fn manifest_len(manifest: ManifestModel) -> int
    decreases manifest.len(),
{
    if manifest.len() == 0 {
        0
    } else {
        manifest_len(manifest.drop_last()) + 12 + encode_utf8(manifest.last().0).len()
    }
}

/// The bytes of a manifest: for each entry the length of its name, the name,
/// the offset of its blob and the length of its blob.
pub open spec fn manifest_bytes(manifest: ManifestModel) -> Seq<u8>
    decreases manifest.len(),
{
    if manifest.len() == 0 {
        Seq::empty()
    } else {
        manifest_bytes(manifest.drop_last()) + spec_u32_be(
            encode_utf8(manifest.last().0).len() as u32,
        ) + encode_utf8(manifest.last().0) + spec_u32_be(manifest.last().1.offset)
            + spec_u32_be(manifest.last().1.byte)
    }
}

/// The length of an archive in bytes.
pub open spec fn archive_len(manifest: ManifestModel, blob: Seq<u8>) -> int {
    16 + manifest_len(manifest) + blob.len()
}

/// The bytes of an archive.
pub open spec fn archive_bytes(manifest: ManifestModel, blob: Seq<u8>) -> Seq<u8> {
    spec_u32_be(MAGIC_NUMBER) + spec_u32_be(manifest.len() as u32) + spec_u32_be(
        manifest_len(manifest) as u32,
    ) + manifest_bytes(manifest) + blob + spec_u32_be(archive_len(manifest, blob) as u32)
}

/// The first entries of a manifest take no more bytes than the whole.
pub proof fn lemma_manifest_len_prefix(manifest: ManifestModel, n: int)
    requires
        0 <= n <= manifest.len(),
    ensures
        0 <= manifest_len(manifest.take(n)) <= manifest_len(manifest),
        n < manifest.len() ==> manifest_len(manifest.take(n + 1)) == manifest_len(
            manifest.take(n),
        ) + 12 + encode_utf8(manifest[n].0).len(),
        n < manifest.len() ==> manifest_bytes(manifest.take(n + 1)) == manifest_bytes(
            manifest.take(n),
        ) + spec_u32_be(encode_utf8(manifest[n].0).len() as u32) + encode_utf8(manifest[n].0)
            + spec_u32_be(manifest[n].1.offset) + spec_u32_be(manifest[n].1.byte),
    decreases manifest.len() - n,
{
    if n < manifest.len() {
        assert(manifest.take(n + 1).drop_last() =~= manifest.take(n));
        lemma_manifest_len_prefix(manifest, n + 1);
        if n == 0 {
            assert(manifest.take(0) =~= Seq::empty());
        } else {
            lemma_manifest_nonneg(manifest.take(n));
        }
    } else {
        assert(manifest.take(n) =~= manifest);
        lemma_manifest_nonneg(manifest);
    }
}

proof fn lemma_manifest_nonneg(manifest: ManifestModel)
    ensures
        manifest_len(manifest) >= 0,
    decreases manifest.len(),
{
    if manifest.len() > 0 {
        lemma_manifest_nonneg(manifest.drop_last());
    }
}

pub struct Archiver {
    blob: Vec<u8>,
    manifest: Vec<(String, Entry)>,
    manifest_count: u32,
    total_byte: u32,
    current_cursor_offset: u32,
}

#[derive(Debug)]
pub enum ArchiveError {
    Unknown { msg: String },
}

impl Archiver {
    /// The blobs archived so far, one after the other.
    pub closed spec fn spec_blob(&self) -> Seq<u8> {
        self.blob@
    }

    /// The manifest of the blobs archived so far.
    pub closed spec fn spec_manifest(&self) -> ManifestModel {
        self.manifest@.map_values(|e: (String, Entry)| (e.0@, e.1))
    }

    /// Whether the counters of the archiver agree with what it holds.
    pub closed spec fn wf(&self) -> bool {
        &&& self.manifest_count == self.manifest@.len()
        &&& self.total_byte == self.blob@.len()
        &&& self.current_cursor_offset == self.blob@.len()
    }

    /// An archiver that holds nothing.
    pub fn new() -> (r: Self)
        ensures
            r.wf(),
            r.spec_blob() == Seq::<u8>::empty(),
            r.spec_manifest() == Seq::<(Seq<char>, Entry)>::empty(),
    {
        let r = Archiver {
            blob: Vec::new(),
            manifest: Vec::new(),
            manifest_count: 0,
            total_byte: 0,
            current_cursor_offset: 0,
        };
        assert(r.spec_manifest() =~= Seq::<(Seq<char>, Entry)>::empty());
        r
    }

    /// Archives a blob under a name: the blob comes after the others, and the
    /// manifest says where it stands. A name that was used before names the
    /// new blob from now on.
    pub fn archive(&mut self, bytes: Vec<u8>, name: &str)
        requires
            old(self).wf(),
            old(self).spec_blob().len() + bytes@.len() <= u32::MAX,
            old(self).spec_manifest().len() < u32::MAX,
        ensures
            final(self).wf(),
            final(self).spec_blob() == old(self).spec_blob() + bytes@,
            final(self).spec_manifest() == spec_set_entry(
                old(self).spec_manifest(),
                name@,
                Entry { byte: bytes@.len() as u32, offset: old(self).spec_blob().len() as u32 },
            ),
    {
        let ghost manifest = self.spec_manifest();
        let entry = Entry { byte: bytes.len() as u32, offset: self.current_cursor_offset };
        write_bytes(&mut self.blob, bytes.as_slice());
        let mut i: usize = 0;
        while i < self.manifest.len()
            invariant
                i <= self.manifest@.len(),
                self.manifest == old(self).manifest,
                manifest == self.spec_manifest(),
                position(keys_of(manifest), name@, 0) == position(keys_of(manifest), name@, i as int),
            ensures
                i <= self.manifest@.len(),
                self.manifest == old(self).manifest,
                i == position(keys_of(manifest), name@, 0),
            decreases self.manifest@.len() - i,
        {
            if str_equal(self.manifest[i].0.as_str(), name) {
                break ;
            }
            i += 1;
        }
        if i < self.manifest.len() {
            let slot = &mut self.manifest[i];
            slot.1 = entry;
            proof {
                crate::compiler::bytecode::lemma_position(keys_of(manifest), name@, 0);
                assert(manifest[i as int].0 == name@);
            }
            assert(self.spec_manifest() =~= manifest.update(i as int, (name@, entry)));
        } else {
            self.manifest.push((name.to_owned(), entry));
            self.manifest_count += 1;
            assert(self.spec_manifest() =~= manifest.push((name@, entry)));
        }
        self.current_cursor_offset += bytes.len() as u32;
        self.total_byte += bytes.len() as u32;
    }

    /// The number of bytes of the manifest, where it fits 32 bits.
    fn get_byte_manifest(&self) -> (r: Option<u32>)
        ensures
            match r {
                Some(n) => n == manifest_len(self.spec_manifest()),
                None => manifest_len(self.spec_manifest()) > u32::MAX,
            },
    {
        let ghost manifest = self.spec_manifest();
        let mut manifest_byte: u64 = 0;
        let mut i: usize = 0;
        proof {
            assert(manifest.take(0) =~= Seq::empty());
        }
        while i < self.manifest.len()
            invariant
                i <= self.manifest@.len(),
                manifest == self.spec_manifest(),
                manifest_byte == manifest_len(manifest.take(i as int)),
                manifest_byte <= u32::MAX,
            decreases self.manifest@.len() - i,
        {
            proof {
                lemma_manifest_len_prefix(manifest, i as int);
                lemma_manifest_len_prefix(manifest, i + 1);
            }
            let len = self.manifest[i].0.as_str().as_bytes().len();
            if len > 0xFFFF_FFFF {
                return None;
            }
            manifest_byte = manifest_byte + 12 + len as u64;
            if manifest_byte > 0xFFFF_FFFF {
                return None;
            }
            i += 1;
        }
        assert(manifest.take(i as int) =~= manifest);
        Some(manifest_byte as u32)
    }

    /// Appends the manifest.
    fn inject_table_entry(&self, bytes: &mut Vec<u8>)
        requires
            manifest_len(self.spec_manifest()) <= u32::MAX,
        ensures
            final(bytes)@ == old(bytes)@ + manifest_bytes(self.spec_manifest()),
    {
        let ghost manifest = self.spec_manifest();
        let mut i: usize = 0;
        proof {
            assert(manifest.take(0) =~= Seq::empty());
            assert(bytes@ =~= old(bytes)@ + manifest_bytes(manifest.take(0)));
        }
        while i < self.manifest.len()
            invariant
                i <= self.manifest@.len(),
                manifest == self.spec_manifest(),
                manifest_len(manifest) <= u32::MAX,
                bytes@ == old(bytes)@ + manifest_bytes(manifest.take(i as int)),
            decreases self.manifest@.len() - i,
        {
            proof {
                lemma_manifest_len_prefix(manifest, i as int);
                lemma_manifest_len_prefix(manifest, i + 1);
            }
            let ghost before = bytes@;
            let name = self.manifest[i].0.as_str().as_bytes();
            let entry = self.manifest[i].1;
            write_u32(bytes, name.len() as u32);
            write_bytes(bytes, name);
            write_u32(bytes, entry.offset);
            write_u32(bytes, entry.byte);
            assert(bytes@ =~= old(bytes)@ + manifest_bytes(manifest.take(i + 1)));
            i += 1;
        }
        assert(manifest.take(i as int) =~= manifest);
    }

    /// The archive of the blobs archived so far. There is none where its
    /// length does not fit 32 bits.
    pub fn get_bytes(&self) -> (r: Result<Vec<u8>, ArchiveError>)
        requires
            self.wf(),
        ensures
            match r {
                Ok(bytes) => archive_len(self.spec_manifest(), self.spec_blob()) <= u32::MAX
                    && bytes@ == archive_bytes(self.spec_manifest(), self.spec_blob()),
                Err(_) => archive_len(self.spec_manifest(), self.spec_blob()) > u32::MAX,
            },
    {
        let manifest_byte = match self.get_byte_manifest() {
            Some(n) => n,
            None => {
                return Err(
                    ArchiveError::Unknown { msg: String::from_str("the manifest is too large") },
                );
            },
        };
        let total: u64 = self.total_byte as u64 + 16 + manifest_byte as u64;
        if total > 0xFFFF_FFFF {
            return Err(ArchiveError::Unknown { msg: String::from_str("the archive is too large") });
        }
        let mut bytes: Vec<u8> = Vec::new();
        write_u32(&mut bytes, MAGIC_NUMBER);
        write_u32(&mut bytes, self.manifest_count);
        write_u32(&mut bytes, manifest_byte);
        self.inject_table_entry(&mut bytes);
        write_bytes(&mut bytes, self.blob.as_slice());
        write_u32(&mut bytes, total as u32);
        assert(bytes@ =~= archive_bytes(self.spec_manifest(), self.spec_blob()));
        Ok(bytes)
    }
}

impl Default for Archiver {
    fn default() -> (r: Self)
        ensures
            r.wf(),
            r.spec_blob() == Seq::<u8>::empty(),
            r.spec_manifest() == Seq::<(Seq<char>, Entry)>::empty(),
    {
        Self::new()
    }
}

/// The entry of the manifest that stands at `cursor`, and where the next one
/// starts.
pub open spec fn spec_read_entry(bytes: Seq<u8>, cursor: int) -> Option<((Seq<char>, Entry), int)> {
    match spec_word(bytes, cursor) {
        Some(len) => if is_text_at(bytes, cursor + 4, len as nat) {
            let after = cursor + 4 + len;
            match (spec_word(bytes, after), spec_word(bytes, after + 4)) {
                (Some(offset), Some(byte)) => Some(
                    ((spec_text_at(bytes, cursor + 4, len as nat), Entry { byte, offset }), after + 8),
                ),
                _ => None,
            }
        } else {
            None
        },
        None => None,
    }
}

/// The manifest that the `n` entries from `cursor` on give, added to
/// `manifest` one after the other.
pub open spec fn spec_read_manifest(
    bytes: Seq<u8>,
    cursor: int,
    n: nat,
    manifest: ManifestModel,
) -> Option<ManifestModel>
    decreases n,
{
    if n == 0 {
        Some(manifest)
    } else {
        match spec_read_entry(bytes, cursor) {
            Some(((name, entry), next)) => spec_read_manifest(
                bytes,
                next,
                (n - 1) as nat,
                spec_set_entry(manifest, name, entry),
            ),
            None => None,
        }
    }
}

/// Why an archive could not be read.
#[derive(Debug)]
pub enum ExtractorError {
    ReadFile { message: String },
    Unknown { message: String },
    ReadByte { message: String },
    UnmatchMagicNumber,
}

pub struct Extractor {
    blob: Vec<u8>,
    manifest: Vec<(String, Entry)>,
    blob_section_offset: u32,
}

fn read_byte_error(message: &str) -> (r: ExtractorError)
    ensures
        r is ReadByte,
        r.spec_message() == message@,
{
    ExtractorError::ReadByte { message: String::from_str(message) }
}

impl ExtractorError {
    /// The message of the error; a magic number that does not match has the
    /// empty text.
    pub open spec fn spec_message(self) -> Seq<char> {
        match self {
            ExtractorError::ReadFile { message } => message@,
            ExtractorError::Unknown { message } => message@,
            ExtractorError::ReadByte { message } => message@,
            ExtractorError::UnmatchMagicNumber => Seq::empty(),
        }
    }
}

impl Extractor {
    /// The bytes of the archive.
    pub closed spec fn spec_blob(&self) -> Seq<u8> {
        self.blob@
    }

    /// The manifest of the archive.
    pub closed spec fn spec_manifest(&self) -> ManifestModel {
        self.manifest@.map_values(|e: (String, Entry)| (e.0@, e.1))
    }

    /// Where the blobs start in the archive.
    pub closed spec fn spec_blob_section_offset(&self) -> u32 {
        self.blob_section_offset
    }

    /// Reads the manifest of an archive: the magic value, the number of
    /// entries, the length of the manifest, and the entries. Gives the
    /// manifest and its length in bytes.
    pub fn get_manifest_from_blob(blob: &[u8]) -> (r: Result<
        (Vec<(String, Entry)>, u32),
        ExtractorError,
    >)
        ensures
            match r {
                Ok((manifest, size)) => {
                    &&& spec_word(blob@, 0) == Some(MAGIC_NUMBER)
                    &&& spec_word(blob@, 4) is Some
                    &&& spec_word(blob@, 8) == Some(size)
                    &&& spec_read_manifest(
                        blob@,
                        12,
                        spec_word(blob@, 4)->0 as nat,
                        Seq::empty(),
                    ) == Some(manifest@.map_values(|e: (String, Entry)| (e.0@, e.1)))
                },
                Err(e) => {
                    &&& e is UnmatchMagicNumber <==> (spec_word(blob@, 0) matches Some(magic)
                        && magic != MAGIC_NUMBER)
                    &&& e is UnmatchMagicNumber || e is ReadByte
                    &&& e is ReadByte ==> spec_word(blob@, 0) is None || spec_word(blob@, 4) is None
                        || spec_word(blob@, 8) is None || spec_read_manifest(
                        blob@,
                        12,
                        spec_word(blob@, 4)->0 as nat,
                        Seq::empty(),
                    ) is None
                },
            },
    {
        let mut manifest: Vec<(String, Entry)> = Vec::new();
        let mut cursor: usize = 0;
        let magic_code = match read_u32(blob, &mut cursor) {
            Some(v) => v,
            None => {
                return Err(read_byte_error("Error in get number magic code"));
            },
        };
        if magic_code != MAGIC_NUMBER {
            return Err(ExtractorError::UnmatchMagicNumber);
        }
        let manifest_size = match read_u32(blob, &mut cursor) {
            Some(v) => v,
            None => {
                return Err(read_byte_error("Error in get size of manifest"));
            },
        };
        let manifest_size_in_byte = match read_u32(blob, &mut cursor) {
            Some(v) => v,
            None => {
                return Err(read_byte_error("Error in get size in byte of manifest"));
            },
        };
        let ghost start: ManifestModel = Seq::empty();
        assert(manifest@.map_values(|e: (String, Entry)| (e.0@, e.1)) =~= start);
        let mut i: u32 = 0;
        while i < manifest_size
            invariant
                i <= manifest_size,
                spec_word(blob@, 0) == Some(MAGIC_NUMBER),
                spec_word(blob@, 4) == Some(manifest_size),
                spec_word(blob@, 8) == Some(manifest_size_in_byte),
                spec_read_manifest(blob@, 12, manifest_size as nat, Seq::empty())
                    == spec_read_manifest(
                    blob@,
                    cursor as int,
                    (manifest_size - i) as nat,
                    manifest@.map_values(|e: (String, Entry)| (e.0@, e.1)),
                ),
            decreases manifest_size - i,
        {
            let ghost at = cursor as int;
            let ghost before = manifest@.map_values(|e: (String, Entry)| (e.0@, e.1));
            let str_len = match read_u32(blob, &mut cursor) {
                Some(v) => v,
                None => {
                    return Err(read_byte_error("Error in get str len"));
                },
            };
            let string = match read_str_with_len(blob, &mut cursor, str_len as usize) {
                Some(v) => v,
                None => {
                    return Err(read_byte_error("Error in get string"));
                },
            };
            let offset = match read_u32(blob, &mut cursor) {
                Some(v) => v,
                None => {
                    return Err(read_byte_error("Error in offset of blob"));
                },
            };
            let byte = match read_u32(blob, &mut cursor) {
                Some(v) => v,
                None => {
                    return Err(read_byte_error("Error in byte of blob"));
                },
            };
            let entry = Entry { offset, byte };
            let ghost name = string@;
            let mut k: usize = 0;
            while k < manifest.len()
                invariant
                    k <= manifest@.len(),
                    before == manifest@.map_values(|e: (String, Entry)| (e.0@, e.1)),
                    position(keys_of(before), string@, 0) == position(
                        keys_of(before),
                        string@,
                        k as int,
                    ),
                ensures
                    k <= manifest@.len(),
                    before == manifest@.map_values(|e: (String, Entry)| (e.0@, e.1)),
                    k == position(keys_of(before), string@, 0),
                decreases manifest@.len() - k,
            {
                if str_equal(manifest[k].0.as_str(), string.as_str()) {
                    break ;
                }
                k += 1;
            }
            if k < manifest.len() {
                let slot = &mut manifest[k];
                slot.1 = entry;
                assert(manifest@.map_values(|e: (String, Entry)| (e.0@, e.1)) =~= before.update(
                    k as int,
                    (name, entry),
                )) by {
                    assert(before[k as int].0 == name) by {
                        crate::compiler::bytecode::lemma_position(keys_of(before), name, 0);
                    }
                }
            } else {
                manifest.push((string, entry));
                assert(manifest@.map_values(|e: (String, Entry)| (e.0@, e.1)) =~= before.push(
                    (name, entry),
                ));
            }
            i += 1;
        }
        Ok((manifest, manifest_size_in_byte))
    }

    /// An extractor for the archive `blob`. There is none where the manifest
    /// cannot be read, or is so long that the place of the blobs does not
    /// fit 32 bits.
    pub fn init_from_blob(blob: Vec<u8>) -> (r: Result<Self, ExtractorError>)
        ensures
            r is Ok <==> {
                &&& spec_word(blob@, 0) == Some(MAGIC_NUMBER)
                &&& spec_word(blob@, 4) is Some
                &&& spec_word(blob@, 8) matches Some(size) && 12 + size <= u32::MAX
                &&& spec_read_manifest(blob@, 12, spec_word(blob@, 4)->0 as nat, Seq::empty())
                    is Some
            },
            r matches Err(e) ==> (e is UnmatchMagicNumber <==> (spec_word(blob@, 0) matches Some(
                magic,
            ) && magic != MAGIC_NUMBER)),
            r matches Ok(extractor) ==> {
                &&& extractor.spec_blob() == blob@
                &&& spec_word(blob@, 0) == Some(MAGIC_NUMBER)
                &&& spec_word(blob@, 8) matches Some(size) && extractor.spec_blob_section_offset()
                    == 12 + size
                &&& spec_read_manifest(blob@, 12, spec_word(blob@, 4)->0 as nat, Seq::empty())
                    == Some(extractor.spec_manifest())
            },
    {
        let (manifest, manifest_size_in_byte) = match Extractor::get_manifest_from_blob(
            blob.as_slice(),
        ) {
            Ok(v) => v,
            Err(e) => {
                return Err(e);
            },
        };
        if manifest_size_in_byte > 0xFFFF_FFFF - 12 {
            return Err(
                ExtractorError::Unknown { message: String::from_str("the manifest is too large") },
            );
        }
        let blob_section_offset = 4 * 3 + manifest_size_in_byte;
        Ok(Extractor { blob, manifest, blob_section_offset })
    }

    /// The names of the archive's blobs, each with the place of its blob.
    pub fn entries(&self) -> (r: Vec<(String, Entry)>)
        ensures
            r@.map_values(|e: (String, Entry)| (e.0@, e.1)) == self.spec_manifest(),
    {
        let mut out: Vec<(String, Entry)> = Vec::new();
        let mut i: usize = 0;
        while i < self.manifest.len()
            invariant
                i <= self.manifest@.len(),
                out@.len() == i,
                forall|j: int|
                    0 <= j < i ==> (#[trigger] out@[j]).0@ == self.manifest@[j].0@ && out@[j].1
                        == self.manifest@[j].1,
            decreases self.manifest@.len() - i,
        {
            out.push((self.manifest[i].0.clone(), self.manifest[i].1));
            i += 1;
        }
        assert(out@.map_values(|e: (String, Entry)| (e.0@, e.1)) =~= self.spec_manifest());
        out
    }

    /// A copy of the blob that was archived under `name`. There is none
    /// where the manifest lacks the name or the archive is shorter than the
    /// manifest says.
    pub fn extract_blob(&self, name: String) -> (r: Option<Vec<u8>>)
        ensures
            match spec_entry(self.spec_manifest(), name@) {
                Some(entry) => {
                    let from = self.spec_blob_section_offset() + entry.offset;
                    if from + entry.byte <= self.spec_blob().len() {
                        r matches Some(bytes) && bytes@ == self.spec_blob().subrange(
                            from,
                            from + entry.byte,
                        )
                    } else {
                        r is None
                    }
                },
                None => r is None,
            },
    {
        let ghost manifest = self.spec_manifest();
        let mut i: usize = 0;
        while i < self.manifest.len()
            invariant
                i <= self.manifest@.len(),
                manifest == self.spec_manifest(),
                position(keys_of(manifest), name@, 0) == position(keys_of(manifest), name@, i as int),
            ensures
                i <= self.manifest@.len(),
                i == position(keys_of(manifest), name@, 0),
            decreases self.manifest@.len() - i,
        {
            if str_equal(self.manifest[i].0.as_str(), name.as_str()) {
                break ;
            }
            i += 1;
        }
        if i >= self.manifest.len() {
            return None;
        }
        let entry = self.manifest[i].1;
        assert(entry == manifest[i as int].1);
        let cursor: u64 = self.blob_section_offset as u64 + entry.offset as u64;
        if cursor > self.blob.len() as u64 {
            return None;
        }
        read_n_bytes_from_cursor(self.blob.as_slice(), cursor as usize, entry.byte as usize)
    }
}

} // verus!
