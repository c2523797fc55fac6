//! The zip writer of the `zip` crate, over a buffer in memory, with the
//! contracts that the archiver relies on. Nothing in this file is proved: each
//! contract states what the `zip` crate does.

use std::io::Cursor;
use std::io::Write;
use vstd::prelude::*;
use zip::write::SimpleFileOptions;
use zip::ZipWriter;

verus! {

/// An archive under construction: a `zip::ZipWriter` over a buffer in memory.
/// The writer is generic over traits of `std::io`, so it is held here rather
/// than declared.
#[verifier::external_body]
pub struct ArchiveWriter {
    inner: ZipWriter<Cursor<Vec<u8>>>,
}

/// `zip::result::ZipError`, the error of the writer's methods.
#[verifier::external_type_specification]
#[verifier::external_body]
pub struct ExZipError(zip::result::ZipError);

/// `std::io::Error`, the error of writing file data.
#[verifier::external_type_specification]
#[verifier::external_body]
pub struct ExIoError(std::io::Error);

/// How the data of file entries is compressed.
#[derive(Debug, Clone, Copy, PartialEq, Eq, Structural)]
pub enum Compression {
    /// No compression.
    Stored,
    /// The bzip2 algorithm.
    Bzip2,
}

/// One entry of an archive: its name, the data written to it so far, its
/// permission bits, and whether its data is compressed with bzip2. A
/// directory is an entry without data whose name ends in a slash.
pub type Entry = (Seq<char>, Seq<u8>, u32, bool);

/// The entries that the `zip::ZipWriter` of an archive holds, in the order in
/// which they were added.
pub uninterp spec fn archive_entries(writer: ArchiveWriter) -> Seq<
    (Seq<char>, Seq<u8>, u32, bool),
>;

/// A file entry of the `zip::ZipWriter` is open: the entry that was added
/// last was started as a file and takes data.
pub uninterp spec fn file_open(writer: ArchiveWriter) -> bool;

/// A writer that holds `entries` takes a new file entry of this name and
/// compression: what `ZipWriter::start_file` decides. The writer works on a
/// buffer in memory, so nothing but what it holds and what it is given has a
/// say.
pub uninterp spec fn takes_file(
    entries: Seq<(Seq<char>, Seq<u8>, u32, bool)>,
    name: Seq<char>,
    bzip2: bool,
) -> bool;

/// A writer that holds `entries`, the last of them an open file, takes this
/// data for it: what `Write::write_all` on the writer decides.
pub uninterp spec fn takes_data(
    entries: Seq<(Seq<char>, Seq<u8>, u32, bool)>,
    data: Seq<u8>,
) -> bool;

/// A writer that holds `entries` takes a new directory entry of this name:
/// what `ZipWriter::add_directory` decides.
pub uninterp spec fn takes_directory(
    entries: Seq<(Seq<char>, Seq<u8>, u32, bool)>,
    name: Seq<char>,
) -> bool;

/// `bytes` is what `ZipWriter::finish` gave for a writer that held exactly
/// `entries`: a zip archive of those entries, in that order.
pub uninterp spec fn is_archive_of(
    bytes: Seq<u8>,
    entries: Seq<(Seq<char>, Seq<u8>, u32, bool)>,
) -> bool;

/// There is an archive of these entries: a writer that holds them can be
/// finished.
pub open spec fn has_archive(entries: Seq<Entry>) -> bool {
    exists|bytes: Seq<u8>| is_archive_of(bytes, entries)
}

/// An entry of this name is among the entries.
pub open spec fn has_name(entries: Seq<Entry>, name: Seq<char>) -> bool {
    exists|i: int| 0 <= i < entries.len() && (#[trigger] entries[i]).0 == name
}

/// The permission bits that `FileOptions::unix_permissions` keeps of a mode.
pub open spec fn permission_bits(mode: u32) -> u32 {
    mode & 0o777
}

/// The name under which `ZipWriter::add_directory` files a directory: the
/// given name, with a slash behind it unless it ends in a slash or backslash.
pub open spec fn directory_name(name: Seq<char>) -> Seq<char> {
    if name.len() > 0 && (name.last() == '/' || name.last() == '\\') {
        name
    } else {
        name.push('/')
    }
}

/// The entries after data has been written to the last of them.
pub open spec fn entries_after_write(entries: Seq<Entry>, data: Seq<u8>) -> Seq<Entry> {
    entries.update(
        entries.len() - 1,
        (entries.last().0, entries.last().1 + data, entries.last().2, entries.last().3),
    )
}

/// Calls `ZipWriter::new` on an empty buffer in memory. A new writer holds no
/// entries, and no file is open.
#[verifier::external_body]
pub(crate) fn new_writer() -> (writer: ArchiveWriter)
    ensures
        archive_entries(writer) == Seq::<Entry>::empty(),
        !file_open(writer),
{
    ArchiveWriter { inner: ZipWriter::new(Cursor::new(Vec::new())) }
}

/// Calls `ZipWriter::start_file` with the given compression and permission
/// bits. Whether it succeeds is what `takes_file` names; it never does for a
/// name that the writer holds already. Where it succeeds, it has closed the
/// entry before and added an entry of the given name, compression and
/// permission bits, without data yet, behind the others, and that file is
/// open.
#[verifier::external_body]
pub(crate) fn start_file(
    writer: &mut ArchiveWriter,
    name: &str,
    compression: Compression,
    mode: u32,
) -> (started: Result<(), zip::result::ZipError>)
    ensures
        started is Ok <==> takes_file(
            archive_entries(*old(writer)),
            name@,
            compression == Compression::Bzip2,
        ),
        started is Ok ==> !has_name(archive_entries(*old(writer)), name@),
        started is Ok ==> archive_entries(*final(writer)) == archive_entries(*old(writer)).push(
            (name@, Seq::<u8>::empty(), permission_bits(mode), compression == Compression::Bzip2),
        ),
        started is Ok ==> file_open(*final(writer)),
{
    let method = match compression {
        Compression::Stored => zip::CompressionMethod::Stored,
        Compression::Bzip2 => zip::CompressionMethod::Bzip2,
    };
    let options = SimpleFileOptions::default().compression_method(method).unix_permissions(mode);
    writer.inner.start_file(name, options)
}

/// Calls `Write::write_all` on the writer. Empty data is always taken and
/// changes nothing. Other data is only taken while a file entry is open, and
/// then as `takes_data` names. Where it succeeds, all of the data has gone to
/// the entry that was started last, which stays open.
#[verifier::external_body]
pub(crate) fn write_data(writer: &mut ArchiveWriter, data: &[u8]) -> (written: Result<
    (),
    std::io::Error,
>)
    ensures
        written is Ok <==> data@.len() == 0 || (file_open(*old(writer)) && takes_data(
            archive_entries(*old(writer)),
            data@,
        )),
        written is Ok ==> file_open(*final(writer)) == file_open(*old(writer)),
        written is Ok && data@.len() == 0 ==> archive_entries(*final(writer)) == archive_entries(
            *old(writer),
        ),
        written is Ok && data@.len() > 0 ==> archive_entries(*old(writer)).len() > 0
            && archive_entries(*final(writer)) == entries_after_write(
            archive_entries(*old(writer)),
            data@,
        ),
{
    writer.inner.write_all(data)
}

/// Calls `ZipWriter::add_directory` with the given permission bits. Whether
/// it succeeds is what `takes_directory` names; it never does where the
/// writer holds the directory's name already. Where it succeeds, it has
/// closed the entry before and added a directory entry behind the others,
/// under the name that `directory_name` gives; a directory entry is never
/// compressed and takes no data.
#[verifier::external_body]
pub(crate) fn add_directory(writer: &mut ArchiveWriter, name: &str, mode: u32) -> (added: Result<
    (),
    zip::result::ZipError,
>)
    ensures
        added is Ok <==> takes_directory(archive_entries(*old(writer)), name@),
        added is Ok ==> !has_name(archive_entries(*old(writer)), directory_name(name@)),
        added is Ok ==> archive_entries(*final(writer)) == archive_entries(*old(writer)).push(
            (directory_name(name@), Seq::<u8>::empty(), permission_bits(mode), false),
        ),
        added is Ok ==> !file_open(*final(writer)),
{
    let options = SimpleFileOptions::default().unix_permissions(mode);
    writer.inner.add_directory(name, options)
}

/// Calls `ZipWriter::finish`, which closes the last entry and writes the
/// directory of the archive, and hands out the bytes of the buffer. The bytes
/// vary with the platform, so the contract does not say which bytes they are,
/// only that they are an archive of the entries that the writer held. Where
/// it fails, no writer that holds these entries can be finished.
#[verifier::external_body]
pub(crate) fn finish(writer: ArchiveWriter) -> (bytes: Result<Vec<u8>, zip::result::ZipError>)
    ensures
        bytes matches Ok(b) ==> is_archive_of(b@, archive_entries(writer)),
        bytes is Err ==> !has_archive(archive_entries(writer)),
{
    writer.inner.finish().map(Cursor::into_inner)
}

} // verus!
