//! Packing: what to put into an archive, and the entries that it becomes.

use crate::archive::{
    add_directory, directory_name, file_mode, finish_refused, holds_archive, marker_mode,
    marker_refused, name_fits, start_file, start_refused, write_data, write_refused,
    written_entries, ArchiveWriter, Compression, WrittenEntry, MAX_NAME_BYTES,
};
use crate::paths::{normalize, normalized, parts_view, PartView, PathError, PathPart};
use vstd::prelude::*;

verus! {

/// Why an archive could not be built. The type shares its name with the
/// errors of extraction; `ZipperError` names it as well.
#[derive(Debug)]
pub enum UnzipperError {
    /// Reading an input failed on disk.
    IoError(std::io::Error),
    /// The archive container refused an entry or could not be closed.
    ZipError(zip::result::ZipError),
    /// Walking a folder failed.
    WalkdirError(walkdir::Error),
    /// The search for an input that is given by a matcher failed.
    FileMatcherError(file_matcher::FileMatcherError),
    /// What a matcher found at this path is neither a file nor a folder.
    UnknownEntryType(String),
    /// There is nothing at the path of an input that was declared a file.
    FileNotFound(String),
    /// There is nothing at the path of an input that was declared a folder.
    FolderNotFound(String),
    /// What is at the path of an input is not of the kind it was declared.
    WrongKind(String),
    /// A path has no entry name.
    PathError(PathError),
}

/// The errors of packing, under the name of the tool that packs.
pub type ZipperError = UnzipperError;

/// What an `UnzipperError` is in contracts.
pub enum ErrorView {
    IoError(std::io::Error),
    ZipError(zip::result::ZipError),
    WalkdirError(walkdir::Error),
    FileMatcherError(file_matcher::FileMatcherError),
    UnknownEntryType(Seq<char>),
    FileNotFound(Seq<char>),
    FolderNotFound(Seq<char>),
    WrongKind(Seq<char>),
    PathError(PathError),
}

impl View for UnzipperError {
    type V = ErrorView;

    open spec fn view(&self) -> ErrorView {
        match self {
            UnzipperError::IoError(error) => ErrorView::IoError(*error),
            UnzipperError::ZipError(error) => ErrorView::ZipError(*error),
            UnzipperError::WalkdirError(error) => ErrorView::WalkdirError(*error),
            UnzipperError::FileMatcherError(error) => ErrorView::FileMatcherError(*error),
            UnzipperError::UnknownEntryType(path) => ErrorView::UnknownEntryType(path@),
            UnzipperError::FileNotFound(path) => ErrorView::FileNotFound(path@),
            UnzipperError::FolderNotFound(path) => ErrorView::FolderNotFound(path@),
            UnzipperError::WrongKind(path) => ErrorView::WrongKind(path@),
            UnzipperError::PathError(error) => ErrorView::PathError(*error),
        }
    }
}

/// What an error says in words: a text for each kind of error, with the path
/// behind it where the error bears one.
pub open spec fn message_of(error: ErrorView) -> Seq<char> {
    match error {
        ErrorView::IoError(_) => "Input/Output error"@,
        ErrorView::ZipError(_) => "Zip error"@,
        ErrorView::WalkdirError(_) => "Walkdir error"@,
        ErrorView::FileMatcherError(_) => "File matcher error"@,
        ErrorView::UnknownEntryType(path) => "Unknown entry type "@ + path,
        ErrorView::FileNotFound(path) => "File does not exist "@ + path,
        ErrorView::FolderNotFound(path) => "Folder does not exist "@ + path,
        ErrorView::WrongKind(path) => "Not of the kind it was declared "@ + path,
        ErrorView::PathError(_) => "Path has no entry name"@,
    }
}

impl UnzipperError {
    /// The error in words.
    pub fn message(&self) -> (text: String)
        ensures
            text@ == message_of(self@),
    {
        match self {
            UnzipperError::IoError(_) => String::from_str("Input/Output error"),
            UnzipperError::ZipError(_) => String::from_str("Zip error"),
            UnzipperError::WalkdirError(_) => String::from_str("Walkdir error"),
            UnzipperError::FileMatcherError(_) => String::from_str("File matcher error"),
            UnzipperError::UnknownEntryType(path) => String::from_str("Unknown entry type ").concat(
                path.as_str(),
            ),
            UnzipperError::FileNotFound(path) => String::from_str("File does not exist ").concat(
                path.as_str(),
            ),
            UnzipperError::FolderNotFound(path) => String::from_str(
                "Folder does not exist ",
            ).concat(path.as_str()),
            UnzipperError::WrongKind(path) => String::from_str(
                "Not of the kind it was declared ",
            ).concat(path.as_str()),
            UnzipperError::PathError(_) => String::from_str("Path has no entry name"),
        }
    }
}

/// One file or directory as it was found on disk.
#[derive(Debug)]
pub struct SourceNode {
    /// The components of its path.
    pub path: Vec<PathPart>,
    /// Whether it is a regular file.
    pub is_file: bool,
    /// Its permission bits, where the host has them and they could be read.
    pub mode: Option<u32>,
    /// Its content, if it is a file.
    pub data: Vec<u8>,
}

/// What a `SourceNode` is in contracts.
pub struct NodeView {
    pub path: Seq<PartView>,
    pub is_file: bool,
    pub mode: Option<u32>,
    pub data: Seq<u8>,
}

impl View for SourceNode {
    type V = NodeView;

    open spec fn view(&self) -> NodeView {
        NodeView {
            path: parts_view(self.path@),
            is_file: self.is_file,
            mode: self.mode,
            data: self.data@,
        }
    }
}

/// The nodes of a walk, each by its view.
pub open spec fn nodes_view(nodes: Seq<SourceNode>) -> Seq<NodeView> {
    nodes.map_values(|node: SourceNode| node@)
}

/// The one method by which the content of every file is compressed.
pub const FILE_COMPRESSION: Compression = Compression::Deflated;

/// The entry that a file of this name, these permission bits and this
/// content becomes: compressed, with the mode of a file of those bits.
pub open spec fn entry_of(name: Seq<char>, permissions: Option<u32>, data: Seq<u8>) -> WrittenEntry {
    WrittenEntry {
        name,
        compression: FILE_COMPRESSION,
        mode: Some(file_mode(permissions)),
        data,
    }
}

/// The entry that a single file becomes: named by the last component of its
/// path, compressed, with the mode of a file of its permission bits, and
/// with its content. A name that does not fit into an archive gives none.
pub open spec fn file_entry(file: NodeView) -> Result<WrittenEntry, PathError> {
    match normalized(file.path, file.path) {
        Ok(name) => if name_fits(name) {
            Ok(entry_of(name, file.mode, file.data))
        } else {
            Err(PathError::TooLong)
        },
        Err(error) => Err(error),
    }
}

/// The writer refuses a file of this name, these permission bits and this
/// content: it refuses to start the file, or, once the file is started, to
/// take its content.
pub open spec fn file_refused(
    writer: ArchiveWriter,
    name: Seq<char>,
    permissions: Option<u32>,
    data: Seq<u8>,
) -> bool {
    start_refused(writer, name, FILE_COMPRESSION, permissions) || exists|started: ArchiveWriter|
        #[trigger] written_entries(started) == written_entries(writer).push(
            entry_of(name, permissions, Seq::empty()),
        ) && write_refused(started, data)
}

/// The name under which a node of the tree at `root` is stored: its entry
/// name for a file, its entry name with a `/` behind it for anything else,
/// and none for what is no file and has the empty entry name. A name that
/// does not fit into an archive is an error.
pub open spec fn stored_name(root: Seq<PartView>, node: NodeView) -> Result<
    Option<Seq<char>>,
    PathError,
> {
    match normalized(node.path, root) {
        Err(error) => Err(error),
        Ok(name) => {
            let stored = if node.is_file {
                name
            } else {
                directory_name(name)
            };
            if !node.is_file && name.len() == 0 {
                Ok(None)
            } else if name_fits(stored) {
                Ok(Some(stored))
            } else {
                Err(PathError::TooLong)
            }
        },
    }
}

/// The directory marker of this name.
pub open spec fn marker_of(name: Seq<char>) -> WrittenEntry {
    WrittenEntry {
        name,
        compression: Compression::Stored,
        mode: Some(marker_mode()),
        data: Seq::empty(),
    }
}

/// The entries that one node of the tree at `root` becomes: a file becomes an
/// entry with the mode of a file of its permission bits and with its
/// content, anything else a directory marker, unless it has no name to be
/// stored under.
pub open spec fn node_entries(root: Seq<PartView>, node: NodeView) -> Result<
    Seq<WrittenEntry>,
    PathError,
> {
    match stored_name(root, node) {
        Err(error) => Err(error),
        Ok(None) => Ok(Seq::empty()),
        Ok(Some(name)) => Ok(
            seq![
                if node.is_file {
                    entry_of(name, node.mode, node.data)
                } else {
                    marker_of(name)
                },
            ],
        ),
    }
}

/// A node that is stored becomes exactly one entry under the name it is
/// stored under: a file an entry with its content and the mode of a file of
/// its permission bits, anything else a marker without content whose name
/// ends in `/`, whatever the name of the directory ends in.
pub proof fn lemma_one_entry_for_a_node(root: Seq<PartView>, node: NodeView)
    requires
        stored_name(root, node) matches Ok(Some(_)),
    ensures
        node_entries(root, node) matches Ok(entries) && entries.len() == 1 && Some(
            entries[0].name,
        ) == stored_name(root, node)->Ok_0,
        node.is_file ==> node_entries(root, node)->Ok_0[0].data == node.data && node_entries(
            root,
            node,
        )->Ok_0[0].mode == Some(file_mode(node.mode)),
        !node.is_file ==> node_entries(root, node)->Ok_0[0].data.len() == 0 && node_entries(
            root,
            node,
        )->Ok_0[0].name.last() == '/',
{
}

/// The entries that the nodes of the tree at `root` become, in the order of
/// the walk; the error of the first node that has no entry name, if there is
/// one.
pub open spec fn folder_entries(root: Seq<PartView>, nodes: Seq<NodeView>) -> Result<
    Seq<WrittenEntry>,
    PathError,
>
    decreases nodes.len(),
{
    if nodes.len() == 0 {
        Ok(Seq::empty())
    } else {
        match folder_entries(root, nodes.drop_last()) {
            Err(error) => Err(error),
            Ok(before) => match node_entries(root, nodes.last()) {
                Err(error) => Err(error),
                Ok(entries) => Ok(before + entries),
            },
        }
    }
}

/// The writer refuses the entry that a node of the tree at `root` becomes.
pub open spec fn node_refused(writer: ArchiveWriter, root: Seq<PartView>, node: NodeView) -> bool {
    match stored_name(root, node) {
        Ok(Some(name)) => if node.is_file {
            file_refused(writer, name, node.mode, node.data)
        } else {
            marker_refused(writer, name)
        },
        _ => false,
    }
}

/// Names a node of the tree at `root` as it is stored.
pub fn name_node(root: &Vec<PathPart>, node: &SourceNode) -> (named: Result<
    Option<String>,
    PathError,
>)
    ensures
        match named {
            Ok(Some(name)) => stored_name(parts_view(root@), node@) == Ok::<
                Option<Seq<char>>,
                PathError,
            >(Some(name@)),
            Ok(None) => stored_name(parts_view(root@), node@) == Ok::<
                Option<Seq<char>>,
                PathError,
            >(None),
            Err(error) => stored_name(parts_view(root@), node@) == Err::<
                Option<Seq<char>>,
                PathError,
            >(error),
        },
{
    let mut name = match normalize(&node.path, root) {
        Ok(name) => name,
        Err(error) => {
            return Err(error);
        },
    };
    let ghost entry = name@;
    if !node.is_file {
        if name.as_str().unicode_len() == 0 {
            return Ok(None);
        }
        name.append("/");
        proof {
            reveal_strlit("/");
            assert(name@ == directory_name(entry));
        }
    }
    if name.as_str().as_bytes().len() > MAX_NAME_BYTES {
        return Err(PathError::TooLong);
    }
    Ok(Some(name))
}

/// A writer that holds what `writer` holds and the entries of the first
/// `count` nodes, and that refuses the node after them.
pub open spec fn refused_at(
    writer: ArchiveWriter,
    root: Seq<PartView>,
    nodes: Seq<NodeView>,
    count: int,
    reached: ArchiveWriter,
) -> bool {
    &&& 0 <= count < nodes.len()
    &&& folder_entries(root, nodes.take(count)) matches Ok(entries) && written_entries(reached)
        == written_entries(writer) + entries
    &&& node_refused(reached, root, nodes[count])
}

/// The writer refuses one of the nodes of the tree at `root`, once it holds
/// the entries of the nodes before it.
pub open spec fn folder_refused(
    writer: ArchiveWriter,
    root: Seq<PartView>,
    nodes: Seq<NodeView>,
) -> bool {
    exists|count: int, reached: ArchiveWriter| #[trigger]
        refused_at(writer, root, nodes, count, reached)
}

/// Writes a single file to the archive as one entry.
///
/// The entry is named by the last component of the file's path. A path
/// without an entry name, or with one that does not fit into an archive, is
/// refused before anything is written. The container fails the writing only
/// where the writer refuses the file.
pub fn zip_file(writer: &mut ArchiveWriter, file: &SourceNode) -> (done: Result<(), UnzipperError>)
    ensures
        match done {
            Ok(_) => file_entry(file@) matches Ok(entry) && final(writer).entries() == old(
                writer,
            ).entries().push(entry),
            Err(UnzipperError::PathError(error)) => file_entry(file@) == Err::<
                WrittenEntry,
                PathError,
            >(error) && final(writer).entries() == old(writer).entries(),
            Err(UnzipperError::ZipError(_)) => file_entry(file@) matches Ok(entry) && file_refused(
                *old(writer),
                entry.name,
                file@.mode,
                file@.data,
            ),
            Err(_) => false,
        },
        file_entry(file@) matches Ok(entry) && start_refused(
            *old(writer),
            entry.name,
            FILE_COMPRESSION,
            file@.mode,
        ) ==> done is Err,
{
    let name = match normalize(&file.path, &file.path) {
        Ok(name) => name,
        Err(error) => {
            return Err(UnzipperError::PathError(error));
        },
    };
    if name.as_str().as_bytes().len() > MAX_NAME_BYTES {
        return Err(UnzipperError::PathError(PathError::TooLong));
    }
    match start_file(writer, name.as_str(), FILE_COMPRESSION, file.mode) {
        Ok(_) => {},
        Err(error) => {
            return Err(UnzipperError::ZipError(error));
        },
    }
    let ghost started = *writer;
    match write_data(writer, &file.data) {
        Ok(_) => {},
        Err(error) => {
            assert(written_entries(started) == written_entries(*old(writer)).push(
                entry_of(name@, file@.mode, Seq::empty()),
            ));
            return Err(UnzipperError::ZipError(error));
        },
    }
    Ok(())
}

/// Writes the nodes of a walked tree to the archive, in the order of the
/// walk.
///
/// Every node is named against `root`, the path of the tree's top. A file
/// becomes an entry with its permission bits and its content; anything else
/// becomes a directory marker, named with a `/` behind its entry name, unless
/// its name is empty. The first node
/// without an entry name, or with one that does not fit into an archive,
/// ends the writing. The container fails the writing only where the writer
/// refuses one of the nodes.
pub fn zip_folder(writer: &mut ArchiveWriter, root: &Vec<PathPart>, nodes: &Vec<SourceNode>) -> (done:
    Result<(), UnzipperError>)
    ensures
        match done {
            Ok(_) => folder_entries(parts_view(root@), nodes_view(nodes@)) matches Ok(entries)
                && final(writer).entries() == old(writer).entries() + entries,
            Err(UnzipperError::PathError(error)) => folder_entries(
                parts_view(root@),
                nodes_view(nodes@),
            ) == Err::<Seq<WrittenEntry>, PathError>(error),
            Err(UnzipperError::ZipError(_)) => folder_refused(
                *old(writer),
                parts_view(root@),
                nodes_view(nodes@),
            ),
            Err(_) => false,
        },
{
    let ghost top = parts_view(root@);
    let ghost all = nodes_view(nodes@);
    let mut k: usize = 0;
    while k < nodes.len()
        invariant
            k <= nodes.len(),
            top == parts_view(root@),
            all == nodes_view(nodes@),
            folder_entries(top, all.take(k as int)) matches Ok(entries) && writer.entries() == old(
                writer,
            ).entries() + entries,
        decreases nodes.len() - k,
    {
        let node = &nodes[k];
        proof {
            assert(all.take(k + 1).drop_last() == all.take(k as int));
            lemma_folder_error_stays(top, all, k + 1);
        }
        let named = match name_node(root, node) {
            Ok(named) => named,
            Err(error) => {
                return Err(UnzipperError::PathError(error));
            },
        };
        let ghost reached = *writer;
        match named {
            None => {},
            Some(name) => {
                if node.is_file {
                    match start_file(writer, name.as_str(), FILE_COMPRESSION, node.mode) {
                        Ok(_) => {},
                        Err(error) => {
                            assert(refused_at(*old(writer), top, all, k as int, reached));
                            return Err(UnzipperError::ZipError(error));
                        },
                    }
                    let ghost started = *writer;
                    match write_data(writer, &node.data) {
                        Ok(_) => {},
                        Err(error) => {
                            assert(written_entries(started) == written_entries(reached).push(
                                entry_of(name@, node@.mode, Seq::empty()),
                            ));
                            assert(refused_at(*old(writer), top, all, k as int, reached));
                            return Err(UnzipperError::ZipError(error));
                        },
                    }
                } else {
                    assert(name@.last() == '/');
                    match add_directory(writer, name.as_str()) {
                        Ok(_) => {},
                        Err(error) => {
                            assert(refused_at(*old(writer), top, all, k as int, reached));
                            return Err(UnzipperError::ZipError(error));
                        },
                    }
                }
            },
        }
        k += 1;
    }
    assert(all.take(k as int) == all);
    Ok(())
}

/// Once the nodes up to some point have no entries, for want of an entry
/// name, the whole walk has none, and for the same reason.
pub proof fn lemma_folder_error_stays(root: Seq<PartView>, nodes: Seq<NodeView>, count: int)
    requires
        0 <= count <= nodes.len(),
    ensures
        folder_entries(root, nodes.take(count)) is Err ==> folder_entries(root, nodes)
            == folder_entries(root, nodes.take(count)),
    decreases nodes.len() - count,
{
    if count < nodes.len() {
        assert(nodes.take(count + 1).drop_last() == nodes.take(count));
        lemma_folder_error_stays(root, nodes, count + 1);
    } else {
        assert(nodes.take(count) == nodes);
    }
}

/// One thing to put into an archive.
#[derive(Debug, Clone)]
pub enum WhatToZip {
    /// The file at this path.
    File(String),
    /// The folder at this path, with all that is below it.
    Folder(String),
    /// The one file or folder that this matcher finds.
    OneEntry(file_matcher::OneEntry),
}

/// What a `WhatToZip` is in contracts.
pub enum WhatView {
    File(Seq<char>),
    Folder(Seq<char>),
    OneEntry(file_matcher::OneEntry),
}

impl View for WhatToZip {
    type V = WhatView;

    open spec fn view(&self) -> WhatView {
        match self {
            WhatToZip::File(path) => WhatView::File(path@),
            WhatToZip::Folder(path) => WhatView::Folder(path@),
            WhatToZip::OneEntry(matcher) => WhatView::OneEntry(*matcher),
        }
    }
}

/// The things that these matchers stand for, in their order.
pub open spec fn matchers_view(entries: Seq<file_matcher::OneEntry>) -> Seq<WhatView> {
    entries.map_values(|entry: file_matcher::OneEntry| WhatView::OneEntry(entry))
}

/// Why what is at a path could not be gathered.
#[derive(Debug)]
pub enum GatherFailure {
    /// Reading on disk failed.
    Io(std::io::Error),
    /// Walking a folder failed.
    Walk(walkdir::Error),
    /// The search by a matcher failed.
    Matcher(file_matcher::FileMatcherError),
}

/// A folder as it was walked: the path of its top, the nodes of the walk in
/// the order in which the walk met them, the top itself among them, and what
/// ended the walk early, if anything did.
#[derive(Debug)]
pub struct WalkedFolder {
    pub root: Vec<PathPart>,
    pub nodes: Vec<SourceNode>,
    pub failure: Option<GatherFailure>,
}

/// What a `WalkedFolder` is in contracts.
pub struct WalkView {
    pub root: Seq<PartView>,
    pub nodes: Seq<NodeView>,
    pub failure: Option<GatherFailure>,
}

impl View for WalkedFolder {
    type V = WalkView;

    open spec fn view(&self) -> WalkView {
        WalkView {
            root: parts_view(self.root@),
            nodes: nodes_view(self.nodes@),
            failure: self.failure,
        }
    }
}

/// What was found on disk for one thing to put into an archive.
#[derive(Debug)]
pub enum Found {
    /// Nothing is there.
    Missing,
    /// A regular file, with its content.
    File(SourceNode),
    /// A directory, walked.
    Folder(WalkedFolder),
    /// Something at this path that is neither a regular file nor a directory.
    Other(String),
    /// Looking failed.
    Failed(GatherFailure),
}

/// What a `Found` is in contracts.
pub enum FoundView {
    Missing,
    File(NodeView),
    Folder(WalkView),
    Other(Seq<char>),
    Failed(GatherFailure),
}

impl View for Found {
    type V = FoundView;

    open spec fn view(&self) -> FoundView {
        match self {
            Found::Missing => FoundView::Missing,
            Found::File(node) => FoundView::File(node@),
            Found::Folder(walk) => FoundView::Folder(walk@),
            Found::Other(path) => FoundView::Other(path@),
            Found::Failed(failure) => FoundView::Failed(*failure),
        }
    }
}

/// What was found, each by its view.
pub open spec fn founds_view(found: Seq<Found>) -> Seq<FoundView> {
    found.map_values(|one: Found| one@)
}

/// The error that a failure to gather becomes: the same error, wrapped.
pub open spec fn failure_view(failure: GatherFailure) -> ErrorView {
    match failure {
        GatherFailure::Io(error) => ErrorView::IoError(error),
        GatherFailure::Walk(error) => ErrorView::WalkdirError(error),
        GatherFailure::Matcher(error) => ErrorView::FileMatcherError(error),
    }
}

/// The entries of a file that was found, or why it has none.
pub open spec fn found_file_entries(file: NodeView) -> Result<Seq<WrittenEntry>, ErrorView> {
    match file_entry(file) {
        Ok(entry) => Ok(seq![entry]),
        Err(error) => Err(ErrorView::PathError(error)),
    }
}

/// The entries of a folder that was found, or why it has none. What ended
/// the walk early comes after the nodes that the walk still met.
pub open spec fn found_folder_entries(walk: WalkView) -> Result<Seq<WrittenEntry>, ErrorView> {
    match folder_entries(walk.root, walk.nodes) {
        Err(error) => Err(ErrorView::PathError(error)),
        Ok(entries) => match walk.failure {
            Some(failure) => Err(failure_view(failure)),
            None => Ok(entries),
        },
    }
}

/// What a thing to put into an archive turns out to be.
#[derive(Debug)]
pub enum ResolvedEntry {
    /// A regular file, read.
    File(SourceNode),
    /// A directory, walked.
    Directory(WalkedFolder),
}

/// What a `ResolvedEntry` is in contracts.
pub enum ResolvedView {
    File(NodeView),
    Directory(WalkView),
}

impl View for ResolvedEntry {
    type V = ResolvedView;

    open spec fn view(&self) -> ResolvedView {
        match self {
            ResolvedEntry::File(node) => ResolvedView::File(node@),
            ResolvedEntry::Directory(walk) => ResolvedView::Directory(walk@),
        }
    }
}

/// What a thing turns out to be, given what was found for it, or the error
/// that it ends the packing with.
///
/// A thing declared a file must be found a file, one declared a folder must
/// be found a folder; what a matcher stands for may be either. Where looking
/// failed, the failure is the error.
pub open spec fn resolved_as(what: WhatView, found: FoundView) -> Result<ResolvedView, ErrorView> {
    match found {
        FoundView::Failed(failure) => Err(failure_view(failure)),
        FoundView::Missing => Err(
            match what {
                WhatView::File(path) => ErrorView::FileNotFound(path),
                WhatView::Folder(path) => ErrorView::FolderNotFound(path),
                WhatView::OneEntry(_) => ErrorView::UnknownEntryType(Seq::empty()),
            },
        ),
        FoundView::Other(at) => Err(
            match what {
                WhatView::File(path) => ErrorView::WrongKind(path),
                WhatView::Folder(path) => ErrorView::WrongKind(path),
                WhatView::OneEntry(_) => ErrorView::UnknownEntryType(at),
            },
        ),
        FoundView::File(file) => match what {
            WhatView::Folder(path) => Err(ErrorView::WrongKind(path)),
            _ => Ok(ResolvedView::File(file)),
        },
        FoundView::Folder(walk) => match what {
            WhatView::File(path) => Err(ErrorView::WrongKind(path)),
            _ => Ok(ResolvedView::Directory(walk)),
        },
    }
}

/// The entries that one thing becomes, given what was found for it, or the
/// error that it ends the packing with.
pub open spec fn thing_entries(what: WhatView, found: FoundView) -> Result<
    Seq<WrittenEntry>,
    ErrorView,
> {
    match resolved_as(what, found) {
        Err(error) => Err(error),
        Ok(ResolvedView::File(file)) => found_file_entries(file),
        Ok(ResolvedView::Directory(walk)) => found_folder_entries(walk),
    }
}

/// The writer refuses what one thing becomes: the file, or one of the nodes
/// of the folder, that the thing turns out to be.
pub open spec fn thing_refused(writer: ArchiveWriter, what: WhatView, found: FoundView) -> bool {
    match resolved_as(what, found) {
        Err(_) => false,
        Ok(ResolvedView::File(file)) => file_entry(file) matches Ok(entry) && file_refused(
            writer,
            entry.name,
            file.mode,
            file.data,
        ),
        Ok(ResolvedView::Directory(walk)) => folder_refused(writer, walk.root, walk.nodes),
    }
}

/// What was found for the thing at `index`: a thing for which nothing was
/// handed in counts as missing.
pub open spec fn found_at(found: Seq<FoundView>, index: int) -> FoundView {
    if 0 <= index < found.len() {
        found[index]
    } else {
        FoundView::Missing
    }
}

/// The entries of the archive of these things, in the order in which the
/// things were declared, or the error of the first thing that has none.
pub open spec fn archive_entries(what: Seq<WhatView>, found: Seq<FoundView>) -> Result<
    Seq<WrittenEntry>,
    ErrorView,
>
    decreases what.len(),
{
    if what.len() == 0 {
        Ok(Seq::empty())
    } else {
        match archive_entries(what.drop_last(), found) {
            Err(error) => Err(error),
            Ok(before) => match thing_entries(what.last(), found_at(found, what.len() - 1)) {
                Err(error) => Err(error),
                Ok(entries) => Ok(before + entries),
            },
        }
    }
}

/// A writer that holds the entries of the first `count` things and refuses
/// the thing after them.
pub open spec fn thing_refused_at(
    what: Seq<WhatView>,
    found: Seq<FoundView>,
    count: int,
    reached: ArchiveWriter,
) -> bool {
    &&& 0 <= count < what.len()
    &&& archive_entries(what.take(count), found) matches Ok(entries) && written_entries(reached)
        == entries
    &&& thing_refused(reached, what[count], found_at(found, count))
}

/// A writer that holds the entries of all the things and cannot be closed.
pub open spec fn closing_refused(
    what: Seq<WhatView>,
    found: Seq<FoundView>,
    reached: ArchiveWriter,
) -> bool {
    &&& archive_entries(what, found) matches Ok(entries) && written_entries(reached) == entries
    &&& finish_refused(reached)
}

/// The container fails the packing: a writer refuses one of the things, once
/// it holds the entries of the things before it, or it holds the entries of
/// all the things and cannot be closed.
pub open spec fn archive_refused(what: Seq<WhatView>, found: Seq<FoundView>) -> bool {
    ||| exists|count: int, reached: ArchiveWriter| #[trigger]
        thing_refused_at(what, found, count, reached)
    ||| exists|reached: ArchiveWriter| #[trigger] closing_refused(what, found, reached)
}

/// Wraps a failure to gather into the error that ends the packing.
fn failure_error(failure: GatherFailure) -> (error: UnzipperError)
    ensures
        error@ == failure_view(failure),
{
    match failure {
        GatherFailure::Io(error) => UnzipperError::IoError(error),
        GatherFailure::Walk(error) => UnzipperError::WalkdirError(error),
        GatherFailure::Matcher(error) => UnzipperError::FileMatcherError(error),
    }
}

/// Decides what a thing to put into an archive is, given what was found for
/// it on disk.
pub fn resolve(what: &WhatToZip, found: Found) -> (entry: Result<ResolvedEntry, UnzipperError>)
    ensures
        match entry {
            Ok(resolved) => resolved_as(what@, found@) == Ok::<ResolvedView, ErrorView>(resolved@),
            Err(error) => resolved_as(what@, found@) == Err::<ResolvedView, ErrorView>(error@),
        },
{
    match found {
        Found::Failed(failure) => Err(failure_error(failure)),
        Found::Missing => Err(
            match what {
                WhatToZip::File(path) => UnzipperError::FileNotFound(path.clone()),
                WhatToZip::Folder(path) => UnzipperError::FolderNotFound(path.clone()),
                WhatToZip::OneEntry(_) => UnzipperError::UnknownEntryType(String::new()),
            },
        ),
        Found::Other(at) => Err(
            match what {
                WhatToZip::File(path) => UnzipperError::WrongKind(path.clone()),
                WhatToZip::Folder(path) => UnzipperError::WrongKind(path.clone()),
                WhatToZip::OneEntry(_) => UnzipperError::UnknownEntryType(at),
            },
        ),
        Found::File(file) => match what {
            WhatToZip::Folder(path) => Err(UnzipperError::WrongKind(path.clone())),
            _ => Ok(ResolvedEntry::File(file)),
        },
        Found::Folder(walk) => match what {
            WhatToZip::File(path) => Err(UnzipperError::WrongKind(path.clone())),
            _ => Ok(ResolvedEntry::Directory(walk)),
        },
    }
}

/// Whether the nodes of the tree at `root` have no entries, for want of a
/// name that one of them can be stored under.
fn folder_unnamed(root: &Vec<PathPart>, nodes: &Vec<SourceNode>) -> (unnamed: bool)
    ensures
        unnamed == folder_entries(parts_view(root@), nodes_view(nodes@)) is Err,
{
    let ghost top = parts_view(root@);
    let ghost all = nodes_view(nodes@);
    let mut k: usize = 0;
    while k < nodes.len()
        invariant
            k <= nodes.len(),
            top == parts_view(root@),
            all == nodes_view(nodes@),
            folder_entries(top, all.take(k as int)) is Ok,
        decreases nodes.len() - k,
    {
        proof {
            assert(all.take(k + 1).drop_last() == all.take(k as int));
            lemma_folder_error_stays(top, all, k + 1);
        }
        if name_node(root, &nodes[k]).is_err() {
            return true;
        }
        k += 1;
    }
    assert(all.take(k as int) == all);
    false
}

/// Whether what was found for a thing ends the packing before the container
/// is asked: the thing is not what it was declared, looking failed, or a
/// path has no name to be stored under. What is found after such a thing
/// is never packed.
pub fn ends_packing(what: &WhatToZip, found: &Found) -> (ends: bool)
    ensures
        ends == thing_entries(what@, found@) is Err,
{
    match found {
        Found::Failed(_) => true,
        Found::Missing => true,
        Found::Other(_) => true,
        Found::File(file) => match what {
            WhatToZip::Folder(_) => true,
            _ => match normalize(&file.path, &file.path) {
                Ok(name) => name.as_str().as_bytes().len() > MAX_NAME_BYTES,
                Err(_) => true,
            },
        },
        Found::Folder(walk) => match what {
            WhatToZip::File(_) => true,
            _ => folder_unnamed(&walk.root, &walk.nodes) || walk.failure.is_some(),
        },
    }
}

/// Writes one thing to the archive, given what was found for it.
///
/// A thing that is not what it was declared, or for which looking failed,
/// ends with that error and leaves the writer as it is. The container fails
/// the writing only where the writer refuses what the thing becomes.
pub fn zip_thing(writer: &mut ArchiveWriter, what: &WhatToZip, found: Found) -> (done: Result<
    (),
    UnzipperError,
>)
    ensures
        match done {
            Ok(_) => thing_entries(what@, found@) matches Ok(entries) && final(writer).entries()
                == old(writer).entries() + entries,
            Err(error) => if error@ is ZipError {
                thing_refused(*old(writer), what@, found@)
            } else {
                thing_entries(what@, found@) == Err::<Seq<WrittenEntry>, ErrorView>(error@)
            },
        },
        resolved_as(what@, found@) matches Err(error) ==> done matches Err(ended) && ended@
            == error && *final(writer) == *old(writer),
{
    match resolve(what, found) {
        Err(error) => Err(error),
        Ok(ResolvedEntry::File(file)) => {
            zip_file(writer, &file)
        },
        Ok(ResolvedEntry::Directory(walk)) => {
            match zip_folder(writer, &walk.root, &walk.nodes) {
                Ok(_) => {},
                Err(error) => {
                    return Err(error);
                },
            }
            match walk.failure {
                Some(failure) => Err(failure_error(failure)),
                None => Ok(()),
            }
        },
    }
}

/// An archive to build: where it is to be written, and what goes into it, in
/// the order in which it was declared.
#[derive(Debug, Clone)]
pub struct ToZip {
    archive: String,
    what: Vec<WhatToZip>,
}

impl ToZip {
    /// The path at which the archive is to be written.
    pub closed spec fn target(&self) -> Seq<char> {
        self.archive@
    }

    /// What goes into the archive, in the order in which it was declared.
    pub closed spec fn things(&self) -> Seq<WhatView> {
        self.what@.map_values(|what: WhatToZip| what@)
    }

    /// An archive at this path, with nothing to go into it yet.
    pub fn new(archive: &str) -> (to_zip: Self)
        ensures
            to_zip.target() == archive@,
            to_zip.things() == Seq::<WhatView>::empty(),
    {
        ToZip { archive: String::from_str(archive), what: Vec::new() }
    }

    /// With the file at this path as the last thing to go in.
    pub fn file(self, file: &str) -> (to_zip: Self)
        ensures
            to_zip.target() == self.target(),
            to_zip.things() == self.things().push(WhatView::File(file@)),
    {
        let mut to_zip = self;
        to_zip.add_file(file);
        to_zip
    }

    /// With the folder at this path as the last thing to go in.
    pub fn folder(self, folder: &str) -> (to_zip: Self)
        ensures
            to_zip.target() == self.target(),
            to_zip.things() == self.things().push(WhatView::Folder(folder@)),
    {
        let mut to_zip = self;
        to_zip.add_folder(folder);
        to_zip
    }

    /// With what this matcher finds as the last thing to go in.
    pub fn one_entry(self, one_entry: file_matcher::OneEntry) -> (to_zip: Self)
        ensures
            to_zip.target() == self.target(),
            to_zip.things() == self.things().push(WhatView::OneEntry(one_entry)),
    {
        let mut to_zip = self;
        to_zip.add_one_entry(one_entry);
        to_zip
    }

    /// With what each of these matchers finds as the last things to go in,
    /// in their order.
    pub fn one_entries(self, entries: Vec<file_matcher::OneEntry>) -> (to_zip: Self)
        ensures
            to_zip.target() == self.target(),
            to_zip.things() == self.things() + matchers_view(entries@),
    {
        let ghost all = entries@;
        let mut to_zip = self;
        for entry in rest: entries
            invariant
                rest.seq() == all,
                to_zip.target() == self.target(),
                to_zip.things() == self.things() + matchers_view(all.take(rest.index())),
        {
            to_zip.add_one_entry(entry);
        }
        to_zip
    }

    /// Adds the file at this path as the last thing to go in.
    pub fn add_file(&mut self, file: &str)
        ensures
            final(self).target() == old(self).target(),
            final(self).things() == old(self).things().push(WhatView::File(file@)),
    {
        self.what.push(WhatToZip::File(String::from_str(file)));
    }

    /// Adds the folder at this path as the last thing to go in.
    pub fn add_folder(&mut self, folder: &str)
        ensures
            final(self).target() == old(self).target(),
            final(self).things() == old(self).things().push(WhatView::Folder(folder@)),
    {
        self.what.push(WhatToZip::Folder(String::from_str(folder)));
    }

    /// Adds what this matcher finds as the last thing to go in.
    pub fn add_one_entry(&mut self, one_entry: file_matcher::OneEntry)
        ensures
            final(self).target() == old(self).target(),
            final(self).things() == old(self).things().push(WhatView::OneEntry(one_entry)),
    {
        self.what.push(WhatToZip::OneEntry(one_entry));
    }

    /// The path at which the archive is to be written.
    pub fn archive(&self) -> (path: &str)
        ensures
            path@ == self.target(),
    {
        self.archive.as_str()
    }

    /// What goes into the archive, in the order in which it was declared.
    pub fn what(&self) -> (what: &Vec<WhatToZip>)
        ensures
            what@.map_values(|what: WhatToZip| what@) == self.things(),
    {
        &self.what
    }

    /// Packs what was found for the things of this archive, and hands out the
    /// bytes of the archive.
    ///
    /// `found` holds, thing by thing and in their order, what is on disk at
    /// the time of packing. The things are written in the order in which they
    /// were declared, and the first that cannot be written ends the packing
    /// with its error. The container fails the packing only where a writer
    /// refuses one of the things or cannot be closed.
    pub fn zip(&self, found: Vec<Found>) -> (archive: Result<Vec<u8>, UnzipperError>)
        ensures
            match archive {
                Ok(bytes) => archive_entries(self.things(), founds_view(found@)) matches Ok(
                    entries,
                ) && holds_archive(bytes@, entries),
                Err(error) => if error@ is ZipError {
                    archive_refused(self.things(), founds_view(found@))
                } else {
                    archive_entries(self.things(), founds_view(found@)) == Err::<
                        Seq<WrittenEntry>,
                        ErrorView,
                    >(error@)
                },
            },
    {
        let ghost things = self.things();
        let ghost sources = founds_view(found@);
        let mut writer = ArchiveWriter::new();
        let mut k: usize = 0;
        for source in rest: found
            invariant
                k <= self.what.len(),
                k <= rest.index(),
                k < self.what.len() ==> k == rest.index(),
                things == self.things(),
                sources == founds_view(rest.seq()),
                archive_entries(things.take(k as int), sources) matches Ok(entries)
                    && writer.entries() == entries,
        {
            if k < self.what.len() {
                proof {
                    assert(things.take(k + 1).drop_last() == things.take(k as int));
                    lemma_archive_error_stays(things, sources, k + 1);
                }
                let ghost reached = writer;
                match zip_thing(&mut writer, &self.what[k], source) {
                    Ok(_) => {},
                    Err(error) => {
                        proof {
                            if error@ is ZipError {
                                assert(thing_refused_at(things, sources, k as int, reached));
                            }
                        }
                        return Err(error);
                    },
                }
                k += 1;
            }
        }
        if k < self.what.len() {
            proof {
                assert(things.take(k + 1).drop_last() == things.take(k as int));
                lemma_archive_error_stays(things, sources, k + 1);
            }
            let ghost reached = writer;
            match zip_thing(&mut writer, &self.what[k], Found::Missing) {
                Ok(_) => {},
                Err(error) => {
                    proof {
                        if error@ is ZipError {
                            assert(thing_refused_at(things, sources, k as int, reached));
                        }
                    }
                    return Err(error);
                },
            }
        }
        assert(things.take(k as int) == things);
        let ghost reached = writer;
        match writer.finish() {
            Ok(bytes) => Ok(bytes),
            Err(error) => {
                assert(closing_refused(things, sources, reached));
                Err(UnzipperError::ZipError(error))
            },
        }
    }
}

/// Once the things up to some point end the packing with an error, the
/// whole archive ends with that error.
pub proof fn lemma_archive_error_stays(what: Seq<WhatView>, found: Seq<FoundView>, count: int)
    requires
        0 <= count <= what.len(),
    ensures
        archive_entries(what.take(count), found) is Err ==> archive_entries(what, found)
            == archive_entries(what.take(count), found),
    decreases what.len() - count,
{
    if count < what.len() {
        assert(what.take(count + 1).drop_last() == what.take(count));
        lemma_archive_error_stays(what, found, count + 1);
    } else {
        assert(what.take(count) == what);
    }
}

} // verus!
