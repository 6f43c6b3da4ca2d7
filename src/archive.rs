//! A zip archive built in memory, entry by entry.
use vstd::prelude::*;

verus! {

#[verifier::external_type_specification]
#[verifier::external_body]
pub struct ExFileOptions(zip::write::FileOptions);

#[verifier::external_type_specification]
#[verifier::external_body]
pub struct ExZipError(zip::result::ZipError);

#[verifier::external_type_specification]
#[verifier::external_body]
pub struct ExIoError(std::io::Error);

/// A zip writer over a growing byte buffer, with the options that each of
/// its entries is started with.
#[verifier::external_body]
pub struct ZipSink {
    writer: zip::ZipWriter<std::io::Cursor<Vec<u8>>>,
    options: zip::write::FileOptions,
}

/// The entries that a sink has been given so far: each one's name and the
/// uncompressed bytes written to it, in the order they were started.
pub uninterp spec fn zip_entries(s: ZipSink) -> Seq<(Seq<char>, Seq<u8>)>;

/// The sink can take more: it is not closed, and it is writing to its last
/// entry whenever it holds one.
pub uninterp spec fn zip_is_open(s: ZipSink) -> bool;

/// The compression and unix mode the sink gives each entry.
pub uninterp spec fn zip_options(s: ZipSink) -> (Compression, u32);

/// The bytes of the finished archive that the zip writer makes of these
/// entries, each stored with this compression and unix mode.
pub uninterp spec fn zip_archive(
    entries: Seq<(Seq<char>, Seq<u8>)>,
    method: Compression,
    mode: u32,
) -> Seq<u8>;

/// How each entry's bytes are stored.
#[derive(Debug, Clone, Copy, PartialEq, Eq)]
pub enum Compression {
    Stored,
    Deflated,
}

/// Mode bits stamped on every entry: owner read, write and execute; group
/// and others read and execute.
pub const ENTRY_MODE: u32 = 0o755;

/// The most bytes one entry may hold. The writer refuses an entry whose
/// size, stored or uncompressed, passes `u32::MAX`; deflate adds a few bytes
/// per 64 KiB at worst, so entries up to this size are always taken.
pub const MAX_ENTRY_BYTES: u64 = 0x8000_0000;

/// Every entry's content is at most `MAX_ENTRY_BYTES` long.
pub open spec fn entries_fit(entries: Seq<(Seq<char>, Seq<u8>)>) -> bool {
    forall|k: int| 0 <= k < entries.len() ==> (#[trigger] entries[k]).1.len() <= MAX_ENTRY_BYTES
}

/// The last entry, if any, is at most `MAX_ENTRY_BYTES` long.
pub open spec fn last_fits(entries: Seq<(Seq<char>, Seq<u8>)>) -> bool {
    entries.len() > 0 ==> entries.last().1.len() <= MAX_ENTRY_BYTES
}

impl ZipSink {
    /// Relies on `zip::ZipWriter::new`, `zip::write::FileOptions::default`,
    /// `compression_method` and `unix_permissions`: a new writer holds no
    /// entry, and its entries get this compression and these mode bits.
    #[verifier::external_body]
    fn new(method: Compression, mode: u32) -> (r: ZipSink)
        requires
            mode <= 0o777,
        ensures
            zip_entries(r) == Seq::<(Seq<char>, Seq<u8>)>::empty(),
            zip_is_open(r),
            zip_options(r) == (method, mode),
    {
        let m = match method {
            Compression::Stored => zip::CompressionMethod::Stored,
            Compression::Deflated => zip::CompressionMethod::Deflated,
        };
        let options = zip::write::FileOptions::default().compression_method(m).unix_permissions(mode);
        ZipSink { writer: zip::ZipWriter::new(std::io::Cursor::new(Vec::new())), options }
    }

    /// Relies on `zip::ZipWriter::start_file`: on success a new, empty entry
    /// of that name follows the earlier ones. Over an in-memory buffer it
    /// fails only on a closed writer or when the entry it closes is too large.
    #[verifier::external_body]
    fn start_file(&mut self, name: &String) -> (r: Result<(), zip::result::ZipError>)
        ensures
            zip_is_open(*old(self)) && last_fits(zip_entries(*old(self))) ==> r is Ok,
            r is Ok ==> zip_entries(*final(self)) == zip_entries(*old(self)).push(
                (name@, Seq::<u8>::empty()),
            ),
            r is Ok ==> zip_is_open(*final(self)),
            zip_options(*final(self)) == zip_options(*old(self)),
    {
        self.writer.start_file(name.as_str(), self.options)
    }

    /// Relies on `std::io::Write::write_all` as `zip::ZipWriter` implements it:
    /// on success the bytes follow those of the entry last started. Over an
    /// in-memory buffer it fails only on a closed writer or past `u32::MAX`
    /// bytes in one entry.
    #[verifier::external_body]
    fn write_all(&mut self, data: &Vec<u8>) -> (r: Result<(), std::io::Error>)
        requires
            zip_entries(*old(self)).len() > 0,
        ensures
            zip_is_open(*old(self)) && zip_entries(*old(self)).last().1.len() + data@.len()
                <= MAX_ENTRY_BYTES ==> r is Ok,
            r is Ok ==> zip_entries(*final(self)) == zip_entries(*old(self)).update(
                zip_entries(*old(self)).len() - 1,
                (
                    zip_entries(*old(self)).last().0,
                    zip_entries(*old(self)).last().1 + data@,
                ),
            ),
            r is Ok ==> zip_is_open(*final(self)),
            zip_options(*final(self)) == zip_options(*old(self)),
    {
        std::io::Write::write_all(&mut self.writer, data.as_slice())
    }

    /// Relies on `zip::ZipWriter::finish`: writes the central directory and
    /// hands back the bytes of the whole archive. Over an in-memory buffer it
    /// fails only on a closed writer or when the last entry is too large.
    #[verifier::external_body]
    fn finish(&mut self) -> (r: Result<Vec<u8>, zip::result::ZipError>)
        ensures
            zip_is_open(*old(self)) && last_fits(zip_entries(*old(self))) ==> r is Ok,
            r matches Ok(bytes) ==> bytes@ == zip_archive(
                zip_entries(*old(self)),
                zip_options(*old(self)).0,
                zip_options(*old(self)).1,
            ),
    {
        match self.writer.finish() {
            Ok(cursor) => Ok(cursor.into_inner()),
            Err(e) => Err(e),
        }
    }
}

/// A finished zip archive and the entries it was written from.
pub struct Archive {
    bytes: Vec<u8>,
    entries: Ghost<Seq<(Seq<char>, Seq<u8>)>>,
    method: Ghost<Compression>,
    mode: Ghost<u32>,
}

impl Archive {
    /// Each entry's name and content, in the order they were written.
    pub closed spec fn entries(&self) -> Seq<(Seq<char>, Seq<u8>)> {
        self.entries@
    }

    /// The compression of every entry.
    pub closed spec fn method(&self) -> Compression {
        self.method@
    }

    /// The unix mode bits of every entry.
    pub closed spec fn mode(&self) -> u32 {
        self.mode@
    }

    pub closed spec fn spec_bytes(&self) -> Seq<u8> {
        self.bytes@
    }

    /// The archive as bytes, ready to be stored.
    pub fn bytes(&self) -> (r: &Vec<u8>)
        ensures
            r@ == self.spec_bytes(),
    {
        &self.bytes
    }

    pub fn into_bytes(self) -> (r: Vec<u8>)
        ensures
            r@ == self.spec_bytes(),
    {
        self.bytes
    }
}

/// Why the writer could not take the archive.
#[derive(Debug, Clone, Copy, PartialEq, Eq)]
pub struct WriteError;

/// Writes one entry per `(name, content)` pair, in order, each with
/// `method` and mode `ENTRY_MODE`, and finishes the archive. It succeeds
/// whenever no content is longer than `MAX_ENTRY_BYTES`.
pub fn write_archive(files: &Vec<(String, Vec<u8>)>, method: Compression) -> (r: Result<
    Archive,
    WriteError,
>)
    ensures
        entries_fit(files@.map_values(|f: (String, Vec<u8>)| (f.0@, f.1@))) ==> r is Ok,
        r matches Ok(a) ==> {
            &&& a.entries() == files@.map_values(|f: (String, Vec<u8>)| (f.0@, f.1@))
            &&& a.method() == method
            &&& a.mode() == ENTRY_MODE
            &&& a.spec_bytes() == zip_archive(a.entries(), method, ENTRY_MODE)
        },
{
    let mut sink = ZipSink::new(method, ENTRY_MODE);
    let ghost want = files@.map_values(|f: (String, Vec<u8>)| (f.0@, f.1@));
    let mut i: usize = 0;
    while i < files.len()
        invariant
            i <= files.len(),
            want == files@.map_values(|f: (String, Vec<u8>)| (f.0@, f.1@)),
            zip_entries(sink) == want.subrange(0, i as int),
            zip_is_open(sink),
            zip_options(sink) == (method, ENTRY_MODE),
            entries_fit(want) ==> last_fits(zip_entries(sink)),
        decreases files.len() - i,
    {
        proof {
            if entries_fit(want) {
                assert(want[i as int] == (files@[i as int].0@, files@[i as int].1@));
            }
        }
        match sink.start_file(&files[i].0) {
            Ok(()) => {},
            Err(_) => return Err(WriteError),
        }
        assert(zip_entries(sink).last().1 + files[i as int].1@ =~= files[i as int].1@);
        match sink.write_all(&files[i].1) {
            Ok(()) => {},
            Err(_) => return Err(WriteError),
        }
        assert(zip_entries(sink) =~= want.subrange(0, i + 1));
        i = i + 1;
    }
    let ghost written = zip_entries(sink);
    assert(written =~= want);
    match sink.finish() {
        Ok(bytes) => Ok(
            Archive {
                bytes,
                entries: Ghost(written),
                method: Ghost(method),
                mode: Ghost(ENTRY_MODE),
            },
        ),
        Err(_) => Err(WriteError),
    }
}

} // verus!
