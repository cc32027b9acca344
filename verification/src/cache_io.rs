//! Cache entries: zip archives whose members are the output files of a
//! compilation, keyed by file name, each member declared as stored but
//! holding a zstd frame. Also what happens to an object that cannot be
//! stored or restored.
use vstd::prelude::*;
use std::io::Cursor;
use zip::result::ZipError;
use zip::write::FileOptions;
use zip::{CompressionMethod, ZipArchive, ZipWriter};

verus! {

#[verifier::external_type_specification]
#[verifier::external_body]
pub struct ExIoError(std::io::Error);

#[verifier::external_type_specification]
#[verifier::external_body]
pub struct ExZipError(zip::result::ZipError);

/// A zip archive being written to memory: the zip crate's writer, which
/// Verus does not take as a declared type (its `Write + Seek` bound), held
/// here out of Verus's sight.
#[verifier::external_body]
pub struct ZipBuffer {
    w: ZipWriter<Cursor<Vec<u8>>>,
}

/// Why reading or writing a cache entry failed.
#[derive(Debug)]
pub enum CacheIoError {
    /// Reading, writing or compressing failed.
    Io(std::io::Error),
    /// The zip layer refused the archive or a member.
    Zip(ZipError),
    /// A member is missing, not stored, or not a valid zstd frame.
    DecompressionFailure,
    /// An output path has no parent directory.
    NoParent,
    /// A restored file could not be moved into place (the error of the
    /// rename).
    Persist(std::io::Error),
}

/// One member of an archive: its name, its bytes and its unix mode.
pub type Member = (Seq<char>, Seq<u8>, Option<u32>);

/// What `zstd::encode_all` returns for `data` at compression `level`: one
/// zstd frame.
pub uninterp spec fn zstd_frame(data: Seq<u8>, level: int) -> Seq<u8>;

/// What `zstd::decode_all` makes of `frame`: the bytes it holds, or `None`
/// where it is not a valid zstd stream.
pub uninterp spec fn zstd_plain(frame: Seq<u8>) -> Option<Seq<u8>>;

/// The members written so far to a zip writer, in order.
pub uninterp spec fn zip_entries(w: ZipBuffer) -> Seq<(Seq<char>, Seq<u8>, Option<u32>)>;

/// The archive that `ZipWriter::finish` produces after `members` were
/// started (stored, with the given mode) and written, in order.
pub uninterp spec fn zip_stored(members: Seq<(Seq<char>, Seq<u8>, Option<u32>)>) -> Seq<u8>;

/// Whether a zip writer can still take members: it has not failed (a
/// member grown past 4 GiB closes it).
pub uninterp spec fn zip_usable(w: ZipBuffer) -> bool;

/// Whether `ZipArchive::new` accepts `archive`.
pub uninterp spec fn zip_opens(archive: Seq<u8>) -> bool;

/// The member `name` of `archive` as `ZipArchive::by_name` reads it: its
/// raw bytes, whether its compression is `Stored`, and its unix mode; `None`
/// where the archive does not open, has no such member, or reading it fails.
pub uninterp spec fn zip_member(archive: Seq<u8>, name: Seq<char>) -> Option<(Seq<u8>, bool, Option<u32>)>;

/// `zstd::encode_all` at `level`, from memory into memory. Claimed: it
/// succeeds (zstd clamps the level into its range rather than refusing
/// it), the result is the frame named `zstd_frame`, and decoding it gives
/// `data` back.
#[verifier::external_body]
pub(crate) fn zstd_compress(data: &[u8], level: i32) -> (r: Result<Vec<u8>, std::io::Error>)
    ensures
        r is Ok,
        r matches Ok(c) ==> c@ == zstd_frame(data@, level as int) && zstd_plain(c@) == Some(data@),
{
    zstd::encode_all(data, level)
}

/// `zstd::decode_all`. Claimed: it succeeds exactly where `zstd_plain`
/// names a result, and then returns it.
#[verifier::external_body]
fn zstd_decompress(frame: &[u8]) -> (r: Option<Vec<u8>>)
    ensures
        match zstd_plain(frame@) {
            Some(d) => r matches Some(v) && v@ == d,
            None => r is None,
        },
{
    zstd::decode_all(frame).ok()
}

/// `ZipWriter::new` over an empty in-memory buffer. Claimed: no member yet,
/// and the writer is usable.
#[verifier::external_body]
fn zip_writer_new() -> (w: ZipBuffer)
    ensures
        zip_entries(w) == Seq::<(Seq<char>, Seq<u8>, Option<u32>)>::empty(),
        zip_usable(w),
{
    ZipBuffer { w: ZipWriter::new(Cursor::new(Vec::new())) }
}

/// `ZipWriter::start_file`, stored, with unix permissions `mode` where
/// given. Claimed: on success an empty member `name` with that mode is
/// appended; on a usable writer it succeeds (it only writes headers to
/// memory) and the writer stays usable. Nothing is claimed of the writer
/// after a failure.
#[verifier::external_body]
fn zip_start_file(w: &mut ZipBuffer, name: &str, mode: Option<u32>) -> (r: Result<(), ZipError>)
    ensures
        r is Ok ==> zip_entries(*final(w)) == zip_entries(*old(w)).push((name@, Seq::<u8>::empty(), mode)),
        zip_usable(*old(w)) ==> r is Ok && zip_usable(*final(w)),
{
    let opts = FileOptions::default().compression_method(CompressionMethod::Stored);
    let opts = match mode {
        Some(m) => opts.unix_permissions(m),
        None => opts,
    };
    w.w.start_file(name, opts)
}

/// The members after `data` is written to the last one.
pub open spec fn extend_last(e: Seq<Member>, data: Seq<u8>) -> Seq<Member> {
    if e.len() == 0 {
        e
    } else {
        e.update(e.len() - 1, (e.last().0, e.last().1 + data, e.last().2))
    }
}

/// `Write::write_all` on a zip writer. Claimed: on success `data` is
/// appended to the member started last, and non-empty data succeeds only
/// after a member was started, and a usable writer stays usable. On a
/// usable writer with a member started it succeeds as long as that member
/// stays within 4 GiB (`0xFFFF_FFFF` bytes, past which a member without the
/// large-file option is refused). Nothing is claimed after a failure.
#[verifier::external_body]
fn zip_write_all(w: &mut ZipBuffer, data: &[u8]) -> (r: Result<(), std::io::Error>)
    ensures
        r is Ok ==> zip_entries(*final(w)) == extend_last(zip_entries(*old(w)), data@),
        r is Ok && data@.len() > 0 ==> zip_entries(*old(w)).len() > 0,
        r is Ok && zip_usable(*old(w)) ==> zip_usable(*final(w)),
        zip_usable(*old(w)) && zip_entries(*old(w)).len() > 0 && zip_entries(*old(w)).last().1.len() + data@.len()
            <= 0xFFFF_FFFF ==> r is Ok && zip_usable(*final(w)),
{
    std::io::Write::write_all(&mut w.w, data)
}

/// The unix mode that `ZipFile::unix_mode` reads back for a member started
/// with `mode`: `start_file` keeps the permission bits (0o644 where none is
/// given) and marks the member as a regular file.
pub open spec fn mode_read_back(mode: Option<u32>) -> u32 {
    match mode {
        Some(m) => (m & 0o777u32) | 0o100000u32,
        None => 0o100644u32,
    }
}

/// The member at `k` is the last one with its name.
pub open spec fn last_of_name(ms: Seq<Member>, k: int) -> bool {
    0 <= k < ms.len() && forall|j: int| k < j < ms.len() ==> ms[j].0 != ms[k].0
}

/// A name fits the 16-bit length field of a zip header: its UTF-8
/// encoding, at most four bytes a character, is shorter than 64 KiB (the
/// writer truncates longer lengths).
pub open spec fn name_fits(n: Seq<char>) -> bool {
    n.len() < 16384
}

/// Every member's name fits a zip header.
pub open spec fn names_fit(ms: Seq<Member>) -> bool {
    forall|k: int| 0 <= k < ms.len() ==> name_fits(#[trigger] ms[k].0)
}

/// Some member is named `n`.
pub open spec fn has_name(ms: Seq<Member>, n: Seq<char>) -> bool {
    exists|k: int| 0 <= k < ms.len() && #[trigger] ms[k].0 == n
}

/// `ZipWriter::finish`, taking the buffer out. Claimed: on a usable writer
/// it succeeds (it writes the central directory to memory). On success the
/// archive is the one named `zip_stored` for the members written; where
/// every name fits a header, it opens, `by_name` finds under each name the
/// last member written with it, as stored, with its bytes and the mode that
/// `start_file` recorded (the reader indexes members by name, a later one
/// replacing an earlier one), and finds nothing under any other name.
#[verifier::external_body]
fn zip_finish(w: ZipBuffer) -> (r: Result<Vec<u8>, ZipError>)
    ensures
        zip_usable(w) ==> r is Ok,
        r matches Ok(b) ==> b@ == zip_stored(zip_entries(w)),
        r matches Ok(b) ==> names_fit(zip_entries(w)) ==> zip_opens(b@),
        r matches Ok(b) ==> names_fit(zip_entries(w)) ==> forall|k: int| #[trigger] last_of_name(zip_entries(w), k) ==> zip_member(b@, zip_entries(w)[k].0)
            == Some((zip_entries(w)[k].1, true, Some(mode_read_back(zip_entries(w)[k].2)))),
        r matches Ok(b) ==> names_fit(zip_entries(w)) ==> forall|n: Seq<char>| !has_name(zip_entries(w), n) ==> #[trigger] zip_member(b@, n) is None,
{
    let mut w = w.w;
    w.finish().map(|c| c.into_inner())
}

/// `ZipArchive::new` over the bytes. Claimed: it succeeds exactly where
/// `zip_opens` holds.
#[verifier::external_body]
fn zip_check(archive: &[u8]) -> (r: Result<(), ZipError>)
    ensures
        r is Ok <==> zip_opens(archive@),
{
    ZipArchive::new(Cursor::new(archive)).map(|_| ())
}

/// `ZipArchive::by_name` and a read of the whole member. Claimed: the
/// result is the one named `zip_member`.
#[verifier::external_body]
fn zip_read_member(archive: &[u8], name: &str) -> (r: Option<(Vec<u8>, bool, Option<u32>)>)
    ensures
        match zip_member(archive@, name@) {
            Some(m) => r matches Some(x) && x.0@ == m.0 && x.1 == m.1 && x.2 == m.2,
            None => r is None,
        },
{
    let mut z = ZipArchive::new(Cursor::new(archive)).ok()?;
    let mut f = z.by_name(name).ok()?;
    let stored = matches!(f.compression(), CompressionMethod::Stored);
    let mode = f.unix_mode();
    let mut data = Vec::new();
    std::io::Read::read_to_end(&mut f, &mut data).ok()?;
    Some((data, stored, mode))
}

/// What a cache entry gives back for the object `name`: the member must
/// exist, be stored, and hold a valid zstd frame; then its decoded bytes
/// and its unix mode.
pub open spec fn object_result(archive: Seq<u8>, name: Seq<char>) -> Option<(Seq<u8>, Option<u32>)> {
    member_result(zip_member(archive, name))
}

/// The object held by a member read from an archive (see [`object_result`]).
pub open spec fn member_result(member: Option<(Seq<u8>, bool, Option<u32>)>) -> Option<(Seq<u8>, Option<u32>)> {
    match member {
        Some((raw, stored, mode)) => if stored {
            match zstd_plain(raw) {
                Some(d) => Some((d, mode)),
                None => None,
            }
        } else {
            None
        },
        None => None,
    }
}

/// The object held by a member read from an archive: a missing member, one
/// not declared as stored, or one that is not a zstd frame gives
/// `DecompressionFailure`.
pub fn object_from_member(member: Option<(Vec<u8>, bool, Option<u32>)>) -> (r: Result<(Vec<u8>, Option<u32>), CacheIoError>)
    ensures
        match member_result(
            match member {
                Some(m) => Some((m.0@, m.1, m.2)),
                None => None,
            },
        ) {
            Some((d, mode)) => r matches Ok((v, m)) && v@ == d && m == mode,
            None => r matches Err(CacheIoError::DecompressionFailure),
        },
{
    match member {
        Some((raw, stored, mode)) => {
            if !stored {
                return Err(CacheIoError::DecompressionFailure);
            }
            match zstd_decompress(raw.as_slice()) {
                Some(d) => Ok((d, mode)),
                None => Err(CacheIoError::DecompressionFailure),
            }
        },
        None => Err(CacheIoError::DecompressionFailure),
    }
}

/// The object `name` of the cache entry `archive` (see [`object_result`]).
pub fn object_of(archive: &[u8], name: &str) -> (r: Result<(Vec<u8>, Option<u32>), CacheIoError>)
    ensures
        match object_result(archive@, name@) {
            Some((d, mode)) => r matches Ok((v, m)) && v@ == d && m == mode,
            None => r matches Err(CacheIoError::DecompressionFailure),
        },
{
    let member = zip_read_member(archive, name);
    object_from_member(member)
}

/// A cache entry read back: the bytes of a zip archive that opens.
pub struct CacheRead {
    archive: Vec<u8>,
}

impl CacheRead {
    /// The archive's bytes.
    pub closed spec fn bytes(&self) -> Seq<u8> {
        self.archive@
    }

    /// Well formed: the archive opens.
    pub closed spec fn wf(&self) -> bool {
        zip_opens(self.archive@)
    }

    /// Open an entry from its bytes; fails with the zip error where the
    /// bytes are no zip archive.
    pub fn from(archive: Vec<u8>) -> (r: Result<CacheRead, CacheIoError>)
        ensures
            r is Ok <==> zip_opens(archive@),
            r matches Ok(c) ==> c.wf() && c.bytes() == archive@,
            r matches Err(e) ==> e is Zip,
    {
        match zip_check(archive.as_slice()) {
            Ok(()) => Ok(CacheRead { archive }),
            Err(e) => Err(CacheIoError::Zip(e)),
        }
    }

    /// The object `name` of this entry and its stored unix mode, if any
    /// (see [`object_result`]).
    pub fn get_object(&self, name: &str) -> (r: Result<(Vec<u8>, Option<u32>), CacheIoError>)
        ensures
            match object_result(self.bytes(), name@) {
                Some((d, mode)) => r matches Ok((v, m)) && v@ == d && m == mode,
                None => r matches Err(CacheIoError::DecompressionFailure),
            },
    {
        object_of(self.archive.as_slice(), name)
    }
}

/// A cache entry being written: a zip archive in memory, and (as ghost
/// state) the objects put into it before compression.
pub struct CacheWrite {
    zip: ZipBuffer,
    objects: Ghost<Seq<Member>>,
}

impl CacheWrite {
    /// The members written so far: names, zstd frames, modes.
    pub closed spec fn members(&self) -> Seq<Member> {
        zip_entries(self.zip)
    }

    /// The objects put so far: names, contents, modes.
    pub closed spec fn objects(&self) -> Seq<Member> {
        self.objects@
    }

    /// Well formed: the writer is usable, and each member is its object,
    /// its contents as a frame that decodes back to them.
    pub closed spec fn wf(&self) -> bool {
        &&& zip_usable(self.zip)
        &&& self.members().len() == self.objects().len()
        &&& forall|k: int|
            0 <= k < self.members().len() ==> {
                &&& (#[trigger] self.members()[k]).0 == self.objects()[k].0
                &&& self.members()[k].2 == self.objects()[k].2
                &&& zstd_plain(self.members()[k].1) == Some(self.objects()[k].1)
            }
    }

    /// An entry with no object.
    pub fn new() -> (r: CacheWrite)
        ensures
            r.wf(),
            r.members() == Seq::<Member>::empty(),
            r.objects() == Seq::<Member>::empty(),
    {
        CacheWrite { zip: zip_writer_new(), objects: Ghost(Seq::empty()) }
    }

    /// Add the object `name` with contents `data`, compressed at `level` and
    /// declared as stored, with unix mode `mode` where given. On success it
    /// is the last member; an error comes from the compressor or the zip
    /// layer, and leaves the entry unusable. It succeeds whenever the
    /// compressed contents fit a zip member without the large-file option
    /// (at most `0xFFFF_FFFF` bytes).
    pub fn put_object(&mut self, name: &str, data: &[u8], mode: Option<u32>, level: i32) -> (r: Result<(), CacheIoError>)
        requires
            old(self).wf(),
        ensures
            zstd_frame(data@, level as int).len() <= 0xFFFF_FFFF ==> r is Ok,
            r is Ok ==> final(self).wf(),
            r is Ok ==> final(self).members() == old(self).members().push((name@, zstd_frame(data@, level as int), mode)),
            r is Ok ==> final(self).objects() == old(self).objects().push((name@, data@, mode)),
            r matches Err(e) ==> e is Io || e is Zip,
    {
        let frame = match zstd_compress(data, level) {
            Ok(c) => c,
            Err(e) => return Err(CacheIoError::Io(e)),
        };
        match zip_start_file(&mut self.zip, name, mode) {
            Ok(()) => {},
            Err(e) => return Err(CacheIoError::Zip(e)),
        }
        match zip_write_all(&mut self.zip, frame.as_slice()) {
            Ok(()) => {
                assert(Seq::<u8>::empty() + frame@ =~= frame@);
                self.objects = Ghost(self.objects@.push((name@, data@, mode)));
                Ok(())
            },
            Err(e) => Err(CacheIoError::Io(e)),
        }
    }

    /// The finished archive's bytes; finishing a well-formed entry
    /// succeeds. Read back (see [`CacheRead`]) where every name fits a zip
    /// header, each object name gives the contents last put under it, with
    /// the mode the zip layer records for it, and a name never put gives
    /// nothing.
    pub fn finish(self) -> (r: Result<Vec<u8>, CacheIoError>)
        requires
            self.wf(),
        ensures
            r is Ok,
            r matches Ok(b) ==> b@ == zip_stored(self.members()),
            r matches Ok(b) ==> names_fit(self.objects()) ==> zip_opens(b@),
            r matches Ok(b) ==> names_fit(self.objects()) ==> forall|k: int| #[trigger] last_of_name(self.objects(), k)
                ==> object_result(b@, self.objects()[k].0) == Some((self.objects()[k].1, Some(mode_read_back(self.objects()[k].2)))),
            r matches Ok(b) ==> names_fit(self.objects()) ==> forall|n: Seq<char>| !has_name(self.objects(), n) ==> #[trigger] object_result(b@, n) is None,
    {
        let ghost ms = self.members();
        let ghost os = self.objects();
        match zip_finish(self.zip) {
            Ok(b) => {
                proof {
                if names_fit(os) {
                    assert(names_fit(ms)) by {
                        assert forall|k: int| 0 <= k < ms.len() implies name_fits(#[trigger] ms[k].0) by {
                            assert(ms[k].0 == os[k].0);
                        }
                    }
                    assert forall|k: int| #[trigger] last_of_name(os, k) implies object_result(b@, os[k].0)
                        == Some((os[k].1, Some(mode_read_back(os[k].2)))) by {
                        assert(ms[k].0 == os[k].0);
                        assert forall|j: int| k < j < ms.len() implies ms[j].0 != ms[k].0 by {
                            assert(ms[j].0 == os[j].0);
                        }
                        assert(last_of_name(ms, k));
                    }
                    assert forall|n: Seq<char>| !has_name(os, n) implies #[trigger] object_result(b@, n) is None by {
                        if has_name(ms, n) {
                            let k = choose|k: int| 0 <= k < ms.len() && #[trigger] ms[k].0 == n;
                            assert(ms[k].0 == os[k].0);
                            assert(has_name(os, n));
                        }
                        assert(zip_member(b@, n) is None);
                    }
                }
                }
                Ok(b)
            },
            Err(e) => Err(CacheIoError::Zip(e)),
        }
    }
}

/// A cache object backed by a file: `key` is the member name in the entry
/// (the output's file name), `path` its location on disk.
#[derive(Clone, Debug, PartialEq, Eq)]
pub struct FileObjectSource {
    pub key: String,
    pub path: String,
    pub optional: bool,
}

/// What to do with one object after trying to read it (from disk when an
/// entry is written, from the entry when it is restored).
#[derive(Clone, Copy, Debug, PartialEq, Eq, Structural)]
pub enum ObjectStep {
    /// It was read: store it (or write it out) and go on.
    Keep,
    /// It could not be read and is optional: leave it out and go on.
    Skip,
    /// It could not be read and is required: the whole operation fails.
    Fail,
}

/// The step for an object that was (`read`) or was not read.
pub fn object_step(read: bool, optional: bool) -> (r: ObjectStep)
    ensures
        read ==> r == ObjectStep::Keep,
        !read && optional ==> r == ObjectStep::Skip,
        !read && !optional ==> r == ObjectStep::Fail,
{
    if read {
        ObjectStep::Keep
    } else if optional {
        ObjectStep::Skip
    } else {
        ObjectStep::Fail
    }
}

} // verus!
