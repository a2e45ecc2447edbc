//! The archive container, read and written in memory through the `zip` crate.
//!
//! Everything here that is not proved is a statement about that crate: the
//! declared types, the names for what a reader and a writer hold, and the
//! wrappers around its calls. The rest of the library reasons from these
//! statements alone.

use crate::paths::{parts_view, PartView, PathPart};
use vstd::prelude::*;

verus! {

/// `std::io::Cursor`, which lets a byte vector be read and written as a stream.
#[verifier::external_type_specification]
#[verifier::external_body]
#[verifier::reject_recursive_types(T)]
pub struct ExCursor<T>(std::io::Cursor<T>);

/// `zip::ZipArchive`, an archive opened for reading.
#[verifier::external_type_specification]
#[verifier::external_body]
#[verifier::reject_recursive_types(R)]
pub struct ExZipArchive<R>(zip::ZipArchive<R>);

/// `zip::result::ZipError`, the error of every call into the `zip` crate.
#[verifier::external_type_specification]
#[verifier::external_body]
pub struct ExZipError(zip::result::ZipError);

/// One entry as an archive opened for reading hands it out.
pub struct StoredEntry {
    /// The entry's name, as stored.
    pub name: Seq<char>,
    /// The components of the name as a path, if the `zip` crate finds the
    /// name safe to extract.
    pub place: Option<Seq<PartView>>,
    /// The Unix mode stored with the entry, if any.
    pub mode: Option<u32>,
    /// The entry's bytes, decompressed.
    pub data: Seq<u8>,
    /// Whether the archive hands the entry out: it does not where the entry
    /// is stored in a way that the reader cannot undo.
    pub opens: bool,
    /// Whether the bytes of the entry, once it is handed out, can be read to
    /// their end.
    pub reads: bool,
}

/// How the bytes of an entry are stored.
#[derive(Debug, Clone, Copy, PartialEq, Eq, Structural)]
pub enum Compression {
    /// As they are.
    Stored,
    /// Compressed by the deflate method.
    Deflated,
}

/// One entry as it was handed to an archive that is being written.
pub struct WrittenEntry {
    /// The entry's name, as stored.
    pub name: Seq<char>,
    /// How the entry's bytes are stored.
    pub compression: Compression,
    /// The Unix mode stored with the entry.
    pub mode: Option<u32>,
    /// The bytes written to the entry so far.
    pub data: Seq<u8>,
}

/// A place that was read, by the views of its components.
pub open spec fn place_view(place: Option<Vec<PathPart>>) -> Option<Seq<PartView>> {
    match place {
        Some(parts) => Some(parts_view(parts@)),
        None => None,
    }
}

/// The entries of an open archive, in the order of its central directory.
pub uninterp spec fn stored_entries(
    archive: zip::ZipArchive<std::io::Cursor<Vec<u8>>>,
) -> Seq<StoredEntry>;

/// An archive that is being written into memory.
///
/// It holds a `zip::ZipWriter` over a cursor on a byte vector.
#[verifier::external_body]
pub struct ArchiveWriter {
    inner: zip::ZipWriter<std::io::Cursor<Vec<u8>>>,
}

/// The entries handed to the writer so far, in the order in which they were
/// started.
pub uninterp spec fn written_entries(writer: ArchiveWriter) -> Seq<WrittenEntry>;

/// The bytes of the finished archive that the writer gives when it is closed
/// in this state.
pub uninterp spec fn sealed_bytes(writer: ArchiveWriter) -> Seq<u8>;

/// What an archive keeps of an entry on every host: its name, its mode, and
/// its content where the entry is handed out and can be read to its end.
pub struct KeptEntry {
    pub name: Seq<char>,
    pub mode: Option<u32>,
    pub content: Option<Seq<u8>>,
}

/// What a reader keeps of the entries it hands out.
pub open spec fn kept_by_reader(entries: Seq<StoredEntry>) -> Seq<KeptEntry> {
    entries.map_values(
        |entry: StoredEntry|
            KeptEntry {
                name: entry.name,
                mode: entry.mode,
                content: if entry.opens && entry.reads {
                    Some(entry.data)
                } else {
                    None
                },
            },
    )
}

/// What an archive is to keep of the entries that were written to it.
pub open spec fn kept_of_written(entries: Seq<WrittenEntry>) -> Seq<KeptEntry> {
    entries.map_values(
        |entry: WrittenEntry|
            KeptEntry { name: entry.name, mode: entry.mode, content: Some(entry.data) },
    )
}

/// What the archive keeps that `zip::ZipArchive::new` opens from `bytes`;
/// `None` where it finds no archive in them.
pub uninterp spec fn archive_in(bytes: Seq<u8>) -> Option<Seq<KeptEntry>>;

/// `bytes` are a finished archive that holds exactly `entries`: some writer
/// that held them gave these bytes when it was closed, and the bytes open to
/// an archive that keeps them.
pub open spec fn holds_archive(bytes: Seq<u8>, entries: Seq<WrittenEntry>) -> bool {
    &&& exists|writer: ArchiveWriter|
        #[trigger] written_entries(writer) == entries && sealed_bytes(writer) == bytes
    &&& archive_in(bytes) == Some(kept_of_written(entries))
}

/// The most bytes that the name of an entry may take.
pub const MAX_NAME_BYTES: usize = 65535;

/// The name of a file fits into an archive: written in UTF-8 it takes no more
/// than `MAX_NAME_BYTES` bytes.
pub open spec fn name_fits(name: Seq<char>) -> bool {
    vstd::utf8::encode_utf8(name).len() <= MAX_NAME_BYTES
}

/// The name under which a directory is stored: its entry name with a `/`
/// behind it, whatever the name ends in.
pub open spec fn directory_name(name: Seq<char>) -> Seq<char> {
    name + seq!['/']
}

/// The Unix mode that is stored with a file: the low nine of the permission
/// bits asked for, or `rw-r--r--` where none were asked for, and the flag of
/// a regular file.
pub open spec fn file_mode(permissions: Option<u32>) -> u32 {
    match permissions {
        Some(bits) => (bits & 0o777) | 0o100000,
        None => 0o100644,
    }
}

/// The Unix mode that is stored with a directory marker: `rwxr-xr-x` and the
/// flag of a directory.
pub open spec fn marker_mode() -> u32 {
    0o40755
}

/// The writer refuses to start a file of this name, stored in this way, with
/// these permission bits.
pub uninterp spec fn start_refused(
    writer: ArchiveWriter,
    name: Seq<char>,
    compression: Compression,
    permissions: Option<u32>,
) -> bool;

/// The writer refuses to take these bytes for the entry started last.
pub uninterp spec fn write_refused(writer: ArchiveWriter, data: Seq<u8>) -> bool;

/// The writer refuses to add a directory marker of this name.
pub uninterp spec fn marker_refused(writer: ArchiveWriter, name: Seq<char>) -> bool;

/// The writer cannot be closed in this state.
pub uninterp spec fn finish_refused(writer: ArchiveWriter) -> bool;

/// The name under which `zip::ZipWriter::add_directory` stores a marker: the
/// name given, with a `/` behind it unless it ends in `/` or `\` already.
pub open spec fn marker_name(name: Seq<char>) -> Seq<char> {
    if name.len() > 0 && (name.last() == '/' || name.last() == '\\') {
        name
    } else {
        name + seq!['/']
    }
}

/// The entries after `data` was written to the entry started last.
pub open spec fn with_data(entries: Seq<WrittenEntry>, data: Seq<u8>) -> Seq<WrittenEntry> {
    if entries.len() == 0 {
        entries
    } else {
        entries.update(
            entries.len() - 1,
            WrittenEntry { data: entries.last().data + data, ..entries.last() },
        )
    }
}

/// `zip::ZipArchive::new` on a cursor over `bytes`. Claims that whether the
/// bytes open, and what the archive they open to keeps, depend on the bytes
/// alone. Nothing is claimed of which bytes open, but for what
/// `finish_writer` says of the bytes it hands out.
#[verifier::external_body]
fn open_archive(bytes: Vec<u8>) -> (opened: Result<
    zip::ZipArchive<std::io::Cursor<Vec<u8>>>,
    zip::result::ZipError,
>)
    ensures
        match opened {
            Ok(archive) => archive_in(bytes@) == Some(kept_by_reader(stored_entries(archive))),
            Err(_) => archive_in(bytes@) is None,
        },
{
    zip::ZipArchive::new(std::io::Cursor::new(bytes))
}

/// `zip::ZipArchive::len`: the number of entries in the archive.
#[verifier::external_body]
fn archive_len(archive: &zip::ZipArchive<std::io::Cursor<Vec<u8>>>) -> (count: usize)
    ensures
        count == stored_entries(*archive).len(),
{
    archive.len()
}

/// `zip::read::ZipFile::name` of the entry that `zip::ZipArchive::by_index`
/// gives. Claims that a name is handed out exactly where the archive hands
/// out the entry at `index`, that it is the name of that entry, and that
/// reading leaves the entries as they are.
#[verifier::external_body]
fn entry_name(
    archive: &mut zip::ZipArchive<std::io::Cursor<Vec<u8>>>,
    index: usize,
) -> (name: Result<String, zip::result::ZipError>)
    ensures
        stored_entries(*final(archive)) == stored_entries(*old(archive)),
        name is Ok <==> index < stored_entries(*old(archive)).len() && stored_entries(
            *old(archive),
        )[index as int].opens,
        name matches Ok(text) ==> text@ == stored_entries(*old(archive))[index as int].name,
{
    Ok(archive.by_index(index)?.name().to_string())
}

/// `zip::read::ZipFile::enclosed_name` of the entry that
/// `zip::ZipArchive::by_index` gives, handed out component by component as
/// `std::path::Path::components` tells them apart. Claims that what is handed
/// out is the place of the entry at `index`, that the call succeeds exactly
/// where the archive hands out that entry, and that reading leaves the
/// entries as they are. Nothing is claimed of which names have a place.
#[verifier::external_body]
fn entry_place(
    archive: &mut zip::ZipArchive<std::io::Cursor<Vec<u8>>>,
    index: usize,
) -> (place: Result<Option<Vec<PathPart>>, zip::result::ZipError>)
    ensures
        stored_entries(*final(archive)) == stored_entries(*old(archive)),
        place is Ok <==> index < stored_entries(*old(archive)).len() && stored_entries(
            *old(archive),
        )[index as int].opens,
        place matches Ok(found) ==> place_view(found) == stored_entries(
            *old(archive),
        )[index as int].place,
{
    let path = archive.by_index(index)?.enclosed_name();
    Ok(path.map(|path| path.components().map(|part| match part {
        std::path::Component::Normal(name) => PathPart::Name(name.to_string_lossy().into_owned()),
        std::path::Component::CurDir => PathPart::Current,
        std::path::Component::ParentDir => PathPart::Parent,
        anchor => PathPart::Anchor(anchor.as_os_str().to_string_lossy().into_owned()),
    }).collect()))
}

/// `zip::read::ZipFile::unix_mode` of the entry that
/// `zip::ZipArchive::by_index` gives. Claims that what is handed out is the
/// mode of the entry at `index`, that the call succeeds exactly where the
/// archive hands out that entry, and that reading leaves the entries as they
/// are.
#[verifier::external_body]
fn entry_mode(
    archive: &mut zip::ZipArchive<std::io::Cursor<Vec<u8>>>,
    index: usize,
) -> (mode: Result<Option<u32>, zip::result::ZipError>)
    ensures
        stored_entries(*final(archive)) == stored_entries(*old(archive)),
        mode is Ok <==> index < stored_entries(*old(archive)).len() && stored_entries(
            *old(archive),
        )[index as int].opens,
        mode matches Ok(bits) ==> bits == stored_entries(*old(archive))[index as int].mode,
{
    Ok(archive.by_index(index)?.unix_mode())
}

/// `std::io::Read::read_to_end` on the entry that `zip::ZipArchive::by_index`
/// gives. Claims that the bytes handed out are the data of the entry at
/// `index`, that the call succeeds exactly where the archive hands out that
/// entry and its bytes can be read to their end, and that reading leaves the
/// entries as they are. An error of the read comes back as `ZipError::Io`.
#[verifier::external_body]
fn entry_data(
    archive: &mut zip::ZipArchive<std::io::Cursor<Vec<u8>>>,
    index: usize,
) -> (data: Result<Vec<u8>, zip::result::ZipError>)
    ensures
        stored_entries(*final(archive)) == stored_entries(*old(archive)),
        data is Ok <==> index < stored_entries(*old(archive)).len() && stored_entries(
            *old(archive),
        )[index as int].opens && stored_entries(*old(archive))[index as int].reads,
        data matches Ok(bytes) ==> bytes@ == stored_entries(*old(archive))[index as int].data,
{
    let mut bytes = Vec::new();
    std::io::Read::read_to_end(&mut archive.by_index(index)?, &mut bytes)?;
    Ok(bytes)
}

/// `zip::ZipWriter::new` on a cursor over an empty byte vector. Claims that
/// the new writer holds no entry.
#[verifier::external_body]
pub(crate) fn new_writer() -> (writer: ArchiveWriter)
    ensures
        written_entries(writer) == Seq::<WrittenEntry>::empty(),
{
    ArchiveWriter { inner: zip::ZipWriter::new(std::io::Cursor::new(Vec::new())) }
}

/// `zip::ZipWriter::start_file`, with the default options set to the method
/// that `compression` names and, where `permissions` holds bits, to those
/// bits. Claims that on success the writer holds one more entry, of that
/// name, stored in that way, with the mode of a file of those bits and no
/// data yet, and that the call fails exactly where the writer refuses. A
/// name that does not fit is left out: the call panics on it.
#[verifier::external_body]
pub(crate) fn start_file(
    writer: &mut ArchiveWriter,
    name: &str,
    compression: Compression,
    permissions: Option<u32>,
) -> (started: Result<(), zip::result::ZipError>)
    requires
        name_fits(name@),
    ensures
        started is Err <==> start_refused(*old(writer), name@, compression, permissions),
        started is Ok ==> written_entries(*final(writer)) == written_entries(*old(writer)).push(
            WrittenEntry {
                name: name@,
                compression,
                mode: Some(file_mode(permissions)),
                data: Seq::empty(),
            },
        ),
{
    let options = zip::write::SimpleFileOptions::default().compression_method(
        match compression {
            Compression::Stored => zip::CompressionMethod::Stored,
            Compression::Deflated => zip::CompressionMethod::Deflated,
        },
    );
    let options = match permissions {
        Some(bits) => options.unix_permissions(bits),
        None => options,
    };
    writer.inner.start_file(name, options)
}

/// `std::io::Write::write_all` on the writer. Claims that on success the
/// bytes stand behind those of the entry started last, and that the call
/// fails exactly where the writer refuses. An error of the write comes back
/// as `ZipError::Io`.
#[verifier::external_body]
pub(crate) fn write_data(writer: &mut ArchiveWriter, data: &Vec<u8>) -> (written: Result<
    (),
    zip::result::ZipError,
>)
    ensures
        written is Err <==> write_refused(*old(writer), data@),
        written is Ok ==> written_entries(*final(writer)) == with_data(
            written_entries(*old(writer)),
            data@,
        ),
{
    Ok(std::io::Write::write_all(&mut writer.inner, data)?)
}

/// `zip::ZipWriter::add_directory`, with the default options. Claims that on
/// success the writer holds one more entry, named as a directory marker,
/// stored as it is, with the mode of a marker and without data, and that the
/// call fails exactly where the writer refuses. A name that does not fit
/// under the name of its marker is left out: the call panics on it.
#[verifier::external_body]
pub(crate) fn add_directory(writer: &mut ArchiveWriter, name: &str) -> (added: Result<
    (),
    zip::result::ZipError,
>)
    requires
        name_fits(marker_name(name@)),
    ensures
        added is Err <==> marker_refused(*old(writer), name@),
        added is Ok ==> written_entries(*final(writer)) == written_entries(*old(writer)).push(
            WrittenEntry {
                name: marker_name(name@),
                compression: Compression::Stored,
                mode: Some(marker_mode()),
                data: Seq::empty(),
            },
        ),
{
    writer.inner.add_directory(name, zip::write::SimpleFileOptions::default())
}

/// `zip::ZipWriter::finish`, and the byte vector under the cursor it hands
/// back. Claims that the bytes are those of the writer closed in this state,
/// that the call fails exactly where the writer cannot be closed, and that
/// the bytes are an archive of what was written: `zip::ZipArchive::new` opens
/// them, to the entries that the writer held, each under its name, with its
/// mode, and with its content to be read.
#[verifier::external_body]
pub(crate) fn finish_writer(writer: ArchiveWriter) -> (bytes: Result<Vec<u8>, zip::result::ZipError>)
    ensures
        bytes is Err <==> finish_refused(writer),
        bytes matches Ok(sealed) ==> sealed@ == sealed_bytes(writer) && archive_in(sealed@)
            == Some(kept_of_written(written_entries(writer))),
{
    Ok(writer.inner.finish()?.into_inner())
}

impl ArchiveWriter {
    /// The entries handed to the writer so far.
    pub open spec fn entries(self) -> Seq<WrittenEntry> {
        written_entries(self)
    }

    /// A writer that holds no entry yet.
    pub fn new() -> (writer: Self)
        ensures
            writer.entries() == Seq::<WrittenEntry>::empty(),
    {
        new_writer()
    }

    /// Closes the archive and hands out its bytes: an archive of the entries
    /// that the writer holds. Closing fails exactly where the writer cannot
    /// be closed in the state it is in.
    pub fn finish(self) -> (bytes: Result<Vec<u8>, zip::result::ZipError>)
        ensures
            bytes is Err <==> finish_refused(self),
            bytes matches Ok(sealed) ==> holds_archive(sealed@, self.entries()),
    {
        finish_writer(self)
    }
}

/// An archive held in memory and opened for reading.
pub struct ArchiveReader {
    inner: zip::ZipArchive<std::io::Cursor<Vec<u8>>>,
}

impl ArchiveReader {
    /// The entries of the archive, in the order in which it stores them.
    pub closed spec fn entries(&self) -> Seq<StoredEntry> {
        stored_entries(self.inner)
    }

    /// Opens the archive that `bytes` hold.
    ///
    /// Opening fails where the bytes hold no archive. Where they hold one,
    /// the reader's entries are those that the archive keeps.
    pub fn open(bytes: Vec<u8>) -> (opened: Result<ArchiveReader, zip::result::ZipError>)
        ensures
            match opened {
                Ok(reader) => archive_in(bytes@) == Some(kept_by_reader(reader.entries())),
                Err(_) => archive_in(bytes@) is None,
            },
    {
        match open_archive(bytes) {
            Ok(inner) => Ok(ArchiveReader { inner }),
            Err(error) => Err(error),
        }
    }

    /// The number of entries.
    pub fn len(&self) -> (count: usize)
        ensures
            count == self.entries().len(),
    {
        archive_len(&self.inner)
    }

    /// The name of the entry at `index`.
    pub(crate) fn name(&mut self, index: usize) -> (name: Result<String, zip::result::ZipError>)
        ensures
            final(self).entries() == old(self).entries(),
            name is Ok <==> index < old(self).entries().len() && old(
                self,
            ).entries()[index as int].opens,
            name matches Ok(text) ==> text@ == old(self).entries()[index as int].name,
    {
        entry_name(&mut self.inner, index)
    }

    /// The place of the entry at `index`: its name as the components of a
    /// path, if the name is safe to extract.
    pub(crate) fn place(&mut self, index: usize) -> (place: Result<
        Option<Vec<PathPart>>,
        zip::result::ZipError,
    >)
        ensures
            final(self).entries() == old(self).entries(),
            place is Ok <==> index < old(self).entries().len() && old(
                self,
            ).entries()[index as int].opens,
            place matches Ok(found) ==> place_view(found) == old(
                self,
            ).entries()[index as int].place,
    {
        entry_place(&mut self.inner, index)
    }

    /// The Unix mode of the entry at `index`.
    pub(crate) fn mode(&mut self, index: usize) -> (mode: Result<Option<u32>, zip::result::ZipError>)
        ensures
            final(self).entries() == old(self).entries(),
            mode is Ok <==> index < old(self).entries().len() && old(
                self,
            ).entries()[index as int].opens,
            mode matches Ok(bits) ==> bits == old(self).entries()[index as int].mode,
    {
        entry_mode(&mut self.inner, index)
    }

    /// The bytes of the entry at `index`, decompressed.
    pub(crate) fn data(&mut self, index: usize) -> (data: Result<Vec<u8>, zip::result::ZipError>)
        ensures
            final(self).entries() == old(self).entries(),
            data is Ok <==> index < old(self).entries().len() && old(
                self,
            ).entries()[index as int].opens && old(self).entries()[index as int].reads,
            data matches Ok(bytes) ==> bytes@ == old(self).entries()[index as int].data,
    {
        entry_data(&mut self.inner, index)
    }
}

} // verus!
