//! Extraction: the requests of a batch, and the steps that extracting one
//! archive takes on the file system.

use crate::archive::{directory_name, place_view, ArchiveReader, StoredEntry};
use crate::paths::{confined, is_confined, parts_view, PartView, PathPart};
use vstd::prelude::*;

verus! {

/// Why an extraction failed.
#[derive(Debug)]
pub enum UnzipperError {
    /// Reading the archive or writing what it holds failed on disk.
    IoError(std::io::Error),
    /// The archive could not be opened, or one of its entries could not be
    /// read.
    ZipError(zip::result::ZipError),
    /// The task that ran an extraction did not run to its end.
    JoinError(tokio::task::JoinError),
}

impl UnzipperError {
    /// The error in words.
    pub fn message(&self) -> (text: String)
        ensures
            text@ == match self {
                UnzipperError::IoError(_) => "Input/Output error"@,
                UnzipperError::ZipError(_) => "Zip error"@,
                UnzipperError::JoinError(_) => "Task join error"@,
            },
    {
        match self {
            UnzipperError::IoError(_) => String::from_str("Input/Output error"),
            UnzipperError::ZipError(_) => String::from_str("Zip error"),
            UnzipperError::JoinError(_) => String::from_str("Task join error"),
        }
    }
}

/// One archive to extract, and the directory to extract it into.
#[derive(Debug)]
pub struct FileToUnzip {
    archive: String,
    output: String,
}

impl View for FileToUnzip {
    type V = (Seq<char>, Seq<char>);

    /// The archive's path and the output directory's path, as text.
    closed spec fn view(&self) -> (Seq<char>, Seq<char>) {
        (self.archive@, self.output@)
    }
}

impl Clone for FileToUnzip {
    fn clone(&self) -> (copy: Self)
        ensures
            copy@ == self@,
    {
        FileToUnzip { archive: self.archive.clone(), output: self.output.clone() }
    }
}

impl FileToUnzip {
    /// The request to extract the archive at `archive` into the directory at
    /// `output`.
    pub fn new(archive: &str, output: &str) -> (file: Self)
        ensures
            file@ == (archive@, output@),
    {
        FileToUnzip { archive: String::from_str(archive), output: String::from_str(output) }
    }

    /// The path of the archive.
    pub fn archive(&self) -> (path: &str)
        ensures
            path@ == self@.0,
    {
        self.archive.as_str()
    }

    /// The path of the directory that the archive is extracted into.
    pub fn output(&self) -> (path: &str)
        ensures
            path@ == self@.1,
    {
        self.output.as_str()
    }
}

/// The requests of one batch, in the order in which they were added.
#[derive(Debug, Clone)]
pub struct FilesToUnzip {
    files: Vec<FileToUnzip>,
}

impl View for FilesToUnzip {
    type V = Seq<(Seq<char>, Seq<char>)>;

    /// The requests in their order, each by the paths of its archive and of
    /// its output directory.
    closed spec fn view(&self) -> Seq<(Seq<char>, Seq<char>)> {
        self.files@.map_values(|file: FileToUnzip| file@)
    }
}

impl FilesToUnzip {
    /// A batch without requests.
    pub fn new() -> (batch: Self)
        ensures
            batch@ == Seq::<(Seq<char>, Seq<char>)>::empty(),
    {
        FilesToUnzip { files: Vec::new() }
    }

    /// The batch of these requests, in their order.
    pub fn from(files: Vec<FileToUnzip>) -> (batch: Self)
        ensures
            batch@ == files@.map_values(|file: FileToUnzip| file@),
    {
        FilesToUnzip { files }
    }

    /// The batch with one more request at its end.
    pub fn add(self, file_to_unzip: FileToUnzip) -> (batch: Self)
        ensures
            batch@ == self@.push(file_to_unzip@),
    {
        let mut files = self.files;
        files.push(file_to_unzip);
        FilesToUnzip { files }
    }

    /// The batch with the request at its end, if there is one, and the batch
    /// as it is otherwise.
    pub fn maybe_add(self, file_to_unzip: Option<FileToUnzip>) -> (batch: Self)
        ensures
            batch@ == match file_to_unzip {
                Some(file) => self@.push(file@),
                None => self@,
            },
    {
        match file_to_unzip {
            Some(file) => self.add(file),
            None => self,
        }
    }

    /// The batch with, at its end, the request to extract the archive at
    /// `archive` into the directory at `output`.
    pub fn add_file(self, archive: &str, output: &str) -> (batch: Self)
        ensures
            batch@ == self@.push((archive@, output@)),
    {
        self.add(FileToUnzip::new(archive, output))
    }

    /// The batch with the requests of another batch at its end, in their
    /// order.
    pub fn extend(self, files_to_unzip: Self) -> (batch: Self)
        ensures
            batch@ == self@ + files_to_unzip@,
    {
        let mut files = self.files;
        let mut more = files_to_unzip.files;
        files.append(&mut more);
        FilesToUnzip { files }
    }

    /// Whether the batch holds no request.
    pub fn is_empty(&self) -> (empty: bool)
        ensures
            empty == (self@.len() == 0),
    {
        self.files.is_empty()
    }

    /// The number of requests.
    pub fn len(&self) -> (count: usize)
        ensures
            count == self@.len(),
    {
        self.files.len()
    }

    /// The requests, in the order in which they were added.
    pub fn files(&self) -> (files: &Vec<FileToUnzip>)
        ensures
            files@.map_values(|file: FileToUnzip| file@) == self@,
    {
        &self.files
    }
}

/// What an entry of an archive is to the extraction.
#[derive(Debug, Clone, Copy, PartialEq, Eq, Structural)]
pub enum EntryKind {
    /// An entry that is passed over: its name has no place below the output
    /// directory.
    Skipped,
    /// A directory marker.
    Directory,
    /// A file.
    File,
}

/// One step of an extraction, to be taken below the output directory.
#[derive(Debug, PartialEq, Eq)]
pub enum ExtractStep {
    /// Nothing is written for this entry.
    Skip,
    /// The directory at `place` is created with all that leads to it, and
    /// given `mode` where the host knows permission bits.
    MakeDir { place: Vec<PathPart>, mode: Option<u32> },
    /// The directories that lead to `place` are created, the file at `place`
    /// is created with `data` as its content, and given `mode` where the
    /// host knows permission bits.
    WriteFile { place: Vec<PathPart>, data: Vec<u8>, mode: Option<u32> },
}

/// What an `ExtractStep` is in contracts.
pub enum StepView {
    Skip,
    MakeDir { place: Seq<PartView>, mode: Option<u32> },
    WriteFile { place: Seq<PartView>, data: Seq<u8>, mode: Option<u32> },
}

impl View for ExtractStep {
    type V = StepView;

    open spec fn view(&self) -> StepView {
        match self {
            ExtractStep::Skip => StepView::Skip,
            ExtractStep::MakeDir { place, mode } => StepView::MakeDir {
                place: parts_view(place@),
                mode: *mode,
            },
            ExtractStep::WriteFile { place, data, mode } => StepView::WriteFile {
                place: parts_view(place@),
                data: data@,
                mode: *mode,
            },
        }
    }
}

/// An entry name that denotes a directory marker: it ends in `/`.
pub open spec fn is_marker(name: Seq<char>) -> bool {
    name.len() > 0 && name.last() == '/'
}

/// What the entry of this name and place is to the extraction. An entry is
/// passed over unless its name has a place and that place is confined to the
/// directory it is joined to.
pub open spec fn kind_of(name: Seq<char>, place: Option<Seq<PartView>>) -> EntryKind {
    match place {
        None => EntryKind::Skipped,
        Some(parts) => if !confined(parts) {
            EntryKind::Skipped
        } else if is_marker(name) {
            EntryKind::Directory
        } else {
            EntryKind::File
        },
    }
}

/// The step that extracting `entry` takes.
pub open spec fn planned(entry: StoredEntry) -> StepView {
    match kind_of(entry.name, entry.place) {
        EntryKind::Skipped => StepView::Skip,
        EntryKind::Directory => StepView::MakeDir { place: entry.place->0, mode: entry.mode },
        EntryKind::File => StepView::WriteFile {
            place: entry.place->0,
            data: entry.data,
            mode: entry.mode,
        },
    }
}

/// The reading ends at this entry: the archive does not hand it out, or it
/// is a file to the extraction and its bytes cannot be read to their end.
pub open spec fn unreadable(entry: StoredEntry) -> bool {
    !entry.opens || (kind_of(entry.name, entry.place) == EntryKind::File && !entry.reads)
}

/// A directory marker is read as one: the name under which the packing
/// stores a directory denotes a directory marker to the extraction, whatever
/// the name of the directory ends in.
pub proof fn lemma_marker_is_read_as_marker(name: Seq<char>)
    ensures
        is_marker(directory_name(name)),
{
}

/// Whether an entry name denotes a directory marker.
pub fn names_marker(name: &str) -> (yes: bool)
    ensures
        yes == is_marker(name@),
{
    let length = name.unicode_len();
    length > 0 && name.get_char(length - 1) == '/'
}

/// Decides what the entry of this name is to the extraction, given the place
/// that the archive reader found for the name.
pub fn classify(name: &str, place: &Option<Vec<PathPart>>) -> (kind: EntryKind)
    ensures
        kind == kind_of(name@, place_view(*place)),
{
    match place {
        None => EntryKind::Skipped,
        Some(parts) => {
            if !is_confined(parts) {
                EntryKind::Skipped
            } else if names_marker(name) {
                EntryKind::Directory
            } else {
                EntryKind::File
            }
        },
    }
}

/// What came of extracting one archive.
#[derive(Debug)]
pub struct Extraction {
    /// The number of entries in the archive.
    pub total: usize,
    /// The steps to take, one for each entry that was read, in the order in
    /// which the archive stores them.
    pub steps: Vec<ExtractStep>,
    /// The error that ended the reading before the last entry, if any.
    pub failure: Option<UnzipperError>,
}

/// Reads an archive entry by entry and says what extracting it takes.
///
/// Every entry that was read gives one step, in the archive's order. The
/// first entry that cannot be read ends the reading: the steps of the entries
/// before it stand, with the error beside them. The reading ends nowhere
/// else.
pub fn unzip_task(archive: &mut ArchiveReader) -> (extraction: Extraction)
    ensures
        final(archive).entries() == old(archive).entries(),
        extraction.total == old(archive).entries().len(),
        extraction.steps@.len() <= extraction.total,
        forall|i: int|
            0 <= i < extraction.steps@.len() ==> (#[trigger] extraction.steps@[i])@ == planned(
                old(archive).entries()[i],
            ),
        forall|i: int|
            0 <= i < extraction.steps@.len() ==> !unreadable(#[trigger] old(archive).entries()[i]),
        extraction.steps@.len() < extraction.total ==> unreadable(
            old(archive).entries()[extraction.steps@.len() as int],
        ),
        extraction.failure is None <==> extraction.steps@.len() == extraction.total,
        extraction.failure matches Some(error) ==> error is ZipError,
{
    let total = archive.len();
    let mut steps: Vec<ExtractStep> = Vec::new();
    let mut index: usize = 0;
    while index < total
        invariant
            archive.entries() == old(archive).entries(),
            total == archive.entries().len(),
            index == steps@.len(),
            index <= total,
            forall|i: int|
                0 <= i < steps@.len() ==> (#[trigger] steps@[i])@ == planned(
                    archive.entries()[i],
                ),
            forall|i: int| 0 <= i < steps@.len() ==> !unreadable(#[trigger] archive.entries()[i]),
        decreases total - index,
    {
        let name = match archive.name(index) {
            Ok(name) => name,
            Err(error) => {
                return Extraction { total, steps, failure: Some(UnzipperError::ZipError(error)) };
            },
        };
        let place = match archive.place(index) {
            Ok(place) => place,
            Err(error) => {
                return Extraction { total, steps, failure: Some(UnzipperError::ZipError(error)) };
            },
        };
        let step = match classify(name.as_str(), &place) {
            EntryKind::Skipped => ExtractStep::Skip,
            EntryKind::Directory => {
                let mode = match archive.mode(index) {
                    Ok(mode) => mode,
                    Err(error) => {
                        return Extraction {
                            total,
                            steps,
                            failure: Some(UnzipperError::ZipError(error)),
                        };
                    },
                };
                match place {
                    Some(place) => ExtractStep::MakeDir { place, mode },
                    None => ExtractStep::Skip,
                }
            },
            EntryKind::File => {
                let mode = match archive.mode(index) {
                    Ok(mode) => mode,
                    Err(error) => {
                        return Extraction {
                            total,
                            steps,
                            failure: Some(UnzipperError::ZipError(error)),
                        };
                    },
                };
                let data = match archive.data(index) {
                    Ok(data) => data,
                    Err(error) => {
                        return Extraction {
                            total,
                            steps,
                            failure: Some(UnzipperError::ZipError(error)),
                        };
                    },
                };
                match place {
                    Some(place) => ExtractStep::WriteFile { place, data, mode },
                    None => ExtractStep::Skip,
                }
            },
        };
        steps.push(step);
        index += 1;
    }
    Extraction { total, steps, failure: None }
}

} // verus!
