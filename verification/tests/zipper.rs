use archiver::archive::{ArchiveReader, ArchiveWriter};
use archiver::paths::{PathError, PathPart};
use archiver::unzipper::{unzip_task, ExtractStep};
use archiver::zipper::{
    ends_packing, zip_file, zip_folder, zip_thing, Found, GatherFailure, SourceNode, ToZip,
    UnzipperError, WalkedFolder, WhatToZip,
};
use std::io::Read;

fn parts(text: &str) -> Vec<PathPart> {
    text.split('/').map(|name| PathPart::Name(name.to_string())).collect()
}

fn file(path: &str, data: &[u8], mode: Option<u32>) -> SourceNode {
    SourceNode { path: parts(path), is_file: true, mode, data: data.to_vec() }
}

fn dir(path: &str) -> SourceNode {
    SourceNode { path: parts(path), is_file: false, mode: Some(0o755), data: Vec::new() }
}

fn walked(root: &str, nodes: Vec<SourceNode>) -> Found {
    Found::Folder(WalkedFolder { root: parts(root), nodes, failure: None })
}

/// The entries of an archive as the `zip` crate reads them: name, content
/// and permission bits.
fn entries_of(bytes: Vec<u8>) -> Vec<(String, Vec<u8>, Option<u32>)> {
    let mut archive = zip::ZipArchive::new(std::io::Cursor::new(bytes)).unwrap();
    let mut entries = Vec::new();
    for index in 0..archive.len() {
        let mut entry = archive.by_index(index).unwrap();
        let mut data = Vec::new();
        entry.read_to_end(&mut data).unwrap();
        entries.push((entry.name().to_string(), data, entry.unix_mode().map(|mode| mode & 0o777)));
    }
    entries
}

/// The files that extracting the archive writes: place, content and
/// permission bits.
fn extracted_files(bytes: Vec<u8>) -> Vec<(String, Vec<u8>, Option<u32>)> {
    let mut reader = ArchiveReader::open(bytes).unwrap();
    let extraction = unzip_task(&mut reader);
    assert!(extraction.failure.is_none());
    let mut files = Vec::new();
    for step in extraction.steps {
        if let ExtractStep::WriteFile { place, data, mode } = step {
            let names: Vec<String> = place
                .iter()
                .map(|part| match part {
                    PathPart::Name(name) => name.clone(),
                    other => panic!("a step holds the component {:?}", other),
                })
                .collect();
            files.push((names.join("/"), data, mode.map(|bits| bits & 0o777)));
        }
    }
    files
}

fn io_failure(text: &str) -> GatherFailure {
    GatherFailure::Io(std::io::Error::new(std::io::ErrorKind::Other, text.to_string()))
}

#[test]
fn pets_are_packed_and_extracted() {
    let to_zip = ToZip::new("pets.zip").file("pets/cat.txt").folder("pets/mice");
    let found = vec![
        Found::File(file("pets/cat.txt", b"meow", Some(0o644))),
        walked(
            "pets/mice",
            vec![
                dir("pets/mice"),
                file("pets/mice/jerry.txt", b"jerry", Some(0o644)),
                file("pets/mice/cherie.txt", b"cherie", Some(0o644)),
            ],
        ),
    ];
    let bytes = to_zip.zip(found).unwrap();
    let mut reader = ArchiveReader::open(bytes).unwrap();
    let extraction = unzip_task(&mut reader);
    assert!(extraction.failure.is_none());
    assert_eq!(extraction.total, 4);
    let mut out = Vec::new();
    for step in &extraction.steps {
        match step {
            ExtractStep::Skip => panic!("nothing is to be passed over"),
            ExtractStep::MakeDir { place, .. } => {
                assert_eq!(place, &parts("mice"));
            }
            ExtractStep::WriteFile { place, data, .. } => {
                let names: Vec<String> = place
                    .iter()
                    .map(|part| match part {
                        PathPart::Name(name) => name.clone(),
                        other => panic!("a step holds the component {:?}", other),
                    })
                    .collect();
                out.push((format!("out/{}", names.join("/")), data.clone()));
            }
        }
    }
    assert_eq!(
        out,
        vec![
            ("out/cat.txt".to_string(), b"meow".to_vec()),
            ("out/mice/jerry.txt".to_string(), b"jerry".to_vec()),
            ("out/mice/cherie.txt".to_string(), b"cherie".to_vec()),
        ]
    );
}

#[test]
fn a_packed_folder_is_extracted_under_its_own_name() {
    let to_zip = ToZip::new("pets.zip").folder("pets");
    let found = vec![walked(
        "pets",
        vec![
            dir("pets"),
            file("pets/cat.txt", b"meow", None),
            dir("pets/mice"),
            file("pets/mice/jerry.txt", b"jerry", None),
            file("pets/mice/cherie.txt", b"cherie", None),
        ],
    )];
    let files: Vec<(String, Vec<u8>)> = extracted_files(to_zip.zip(found).unwrap())
        .into_iter()
        .map(|(place, data, _)| (format!("out/{}", place), data))
        .collect();
    assert_eq!(
        files,
        vec![
            ("out/pets/cat.txt".to_string(), b"meow".to_vec()),
            ("out/pets/mice/jerry.txt".to_string(), b"jerry".to_vec()),
            ("out/pets/mice/cherie.txt".to_string(), b"cherie".to_vec()),
        ]
    );
}

#[test]
fn a_directory_whose_name_ends_in_a_backslash_comes_back_as_a_directory() {
    let to_zip = ToZip::new("odd.zip").folder("top");
    let found = vec![walked(
        "top",
        vec![dir("top"), dir("top/x\\"), file("top/x\\/f.txt", b"inside", None)],
    )];
    let bytes = to_zip.zip(found).unwrap();
    let names: Vec<String> =
        entries_of(bytes.clone()).into_iter().map(|entry| entry.0).collect();
    assert_eq!(names, vec!["top/", "top/x\\/", "top/x\\/f.txt"]);
    let mut reader = ArchiveReader::open(bytes).unwrap();
    let extraction = unzip_task(&mut reader);
    assert!(extraction.failure.is_none());
    assert_eq!(extraction.steps.len(), 3);
    match &extraction.steps[1] {
        ExtractStep::MakeDir { place, .. } => assert_eq!(place, &parts("top/x\\")),
        other => panic!("the second entry is a directory, not {:?}", other),
    }
    match &extraction.steps[2] {
        ExtractStep::WriteFile { place, data, .. } => {
            assert_eq!(place, &parts("top/x\\/f.txt"));
            assert_eq!(data, &b"inside".to_vec());
        }
        other => panic!("the third entry is a file, not {:?}", other),
    }
}

#[test]
fn a_tree_comes_back_as_it_was_packed() {
    let binary: Vec<u8> = (0..=255u8).cycle().take(70_000).collect();
    let nodes = vec![
        dir("work/tree"),
        file("work/tree/empty.bin", b"", Some(0o600)),
        dir("work/tree/deep"),
        dir("work/tree/deep/deeper"),
        file("work/tree/deep/deeper/data.bin", &binary, Some(0o640)),
        file("work/tree/deep/notes.txt", b"notes", Some(0o644)),
        dir("work/tree/void"),
    ];
    let to_zip = ToZip::new("tree.zip").folder("work/tree");
    let bytes = to_zip.zip(vec![walked("work/tree", nodes)]).unwrap();
    assert_eq!(
        extracted_files(bytes.clone()),
        vec![
            ("tree/empty.bin".to_string(), Vec::new(), Some(0o600)),
            ("tree/deep/deeper/data.bin".to_string(), binary, Some(0o640)),
            ("tree/deep/notes.txt".to_string(), b"notes".to_vec(), Some(0o644)),
        ]
    );
    let names: Vec<String> = entries_of(bytes).into_iter().map(|entry| entry.0).collect();
    assert_eq!(
        names,
        vec![
            "tree/",
            "tree/empty.bin",
            "tree/deep/",
            "tree/deep/deeper/",
            "tree/deep/deeper/data.bin",
            "tree/deep/notes.txt",
            "tree/void/",
        ]
    );
}

#[test]
fn permission_bits_come_back_as_they_were_captured() {
    let to_zip = ToZip::new("tools.zip").file("bin/run.sh").file("bin/readme.txt").file("bin/plain");
    let found = vec![
        Found::File(file("bin/run.sh", b"#!/bin/sh", Some(0o100755))),
        Found::File(file("bin/readme.txt", b"read me", Some(0o100644))),
        Found::File(file("bin/plain", b"plain", None)),
    ];
    let files = extracted_files(to_zip.zip(found).unwrap());
    assert_eq!(files[0].2, Some(0o755));
    assert_eq!(files[1].2, Some(0o644));
    assert_eq!(files[0].2.unwrap() & 0o111, 0o111);
    assert_eq!(files[1].2.unwrap() & 0o111, 0);
    assert_eq!(files[2].2, Some(0o644));
}

#[test]
fn things_are_written_in_the_order_in_which_they_were_declared() {
    let to_zip = ToZip::new("all.zip").folder("z").file("y.txt").folder("a").file("b.txt");
    let found = vec![
        walked("z", vec![dir("z"), file("z/2.txt", b"2", None), file("z/1.txt", b"1", None)]),
        Found::File(file("y.txt", b"y", None)),
        walked("a", vec![dir("a")]),
        Found::File(file("b.txt", b"b", None)),
    ];
    let names: Vec<String> =
        entries_of(to_zip.zip(found).unwrap()).into_iter().map(|entry| entry.0).collect();
    assert_eq!(names, vec!["z/", "z/2.txt", "z/1.txt", "y.txt", "a/", "b.txt"]);
}

#[test]
fn files_are_deflated_and_markers_are_stored() {
    let to_zip = ToZip::new("pets.zip").folder("pets");
    let text = vec![b'a'; 10_000];
    let found = vec![walked("pets", vec![dir("pets"), file("pets/cat.txt", &text, None)])];
    let bytes = to_zip.zip(found).unwrap();
    assert!(bytes.len() < text.len());
    let mut archive = zip::ZipArchive::new(std::io::Cursor::new(bytes)).unwrap();
    assert_eq!(archive.by_index(0).unwrap().compression(), zip::CompressionMethod::Stored);
    assert_eq!(archive.by_index(1).unwrap().compression(), zip::CompressionMethod::Deflated);
}

#[test]
fn the_mode_stored_is_that_of_a_file_or_of_a_marker() {
    let to_zip = ToZip::new("modes.zip").folder("m");
    let found = vec![walked(
        "m",
        vec![
            dir("m"),
            file("m/plain", b"1", None),
            file("m/tool", b"2", Some(0o755)),
            file("m/sticky", b"3", Some(0o104755)),
            file("m/none", b"4", Some(0)),
        ],
    )];
    let bytes = to_zip.zip(found).unwrap();
    let mut archive = zip::ZipArchive::new(std::io::Cursor::new(bytes)).unwrap();
    let modes: Vec<Option<u32>> =
        (0..archive.len()).map(|index| archive.by_index(index).unwrap().unix_mode()).collect();
    assert_eq!(
        modes,
        vec![Some(0o40755), Some(0o100644), Some(0o100755), Some(0o100755), Some(0o100000)]
    );
}

#[test]
fn a_name_that_does_not_fit_is_refused_before_anything_is_written() {
    let long = "a".repeat(65_536);
    let fits = "b".repeat(65_535);
    let mut writer = ArchiveWriter::new();
    match zip_file(&mut writer, &file(&long, b"x", None)) {
        Err(UnzipperError::PathError(PathError::TooLong)) => {}
        other => panic!("the name does not fit, yet the result is {:?}", other),
    }
    zip_file(&mut writer, &file(&fits, b"x", None)).unwrap();
    let root = parts("top");
    let nodes = vec![dir(&format!("top/{}", "c".repeat(65_535 - 4)))];
    match zip_folder(&mut writer, &root, &nodes) {
        Err(UnzipperError::PathError(PathError::TooLong)) => {}
        other => panic!("the marker does not fit, yet the result is {:?}", other),
    }
    let nodes = vec![dir(&format!("top/{}", "c".repeat(65_534 - 4)))];
    zip_folder(&mut writer, &root, &nodes).unwrap();
    let wide = "é".repeat(32_768);
    match zip_file(&mut writer, &file(&wide, b"x", None)) {
        Err(UnzipperError::PathError(PathError::TooLong)) => {}
        other => panic!("the name takes two bytes a letter, yet the result is {:?}", other),
    }
    let names: Vec<usize> =
        entries_of(writer.finish().unwrap()).into_iter().map(|entry| entry.0.len()).collect();
    assert_eq!(names, vec![65_535, 65_535]);
}

#[test]
fn an_archive_of_nothing_is_an_archive() {
    let bytes = ToZip::new("empty.zip").zip(Vec::new()).unwrap();
    assert!(entries_of(bytes).is_empty());
}

#[test]
fn what_is_found_beyond_the_things_declared_is_left_out() {
    let to_zip = ToZip::new("one.zip").file("a.txt");
    let found =
        vec![Found::File(file("a.txt", b"a", None)), Found::File(file("b.txt", b"b", None))];
    let names: Vec<String> =
        entries_of(to_zip.zip(found).unwrap()).into_iter().map(|entry| entry.0).collect();
    assert_eq!(names, vec!["a.txt"]);
}

#[test]
fn a_single_file_is_named_by_its_file_name() {
    let mut writer = ArchiveWriter::new();
    zip_file(&mut writer, &file("some/where/deep/cat.txt", b"meow", Some(0o644))).unwrap();
    let entries = entries_of(writer.finish().unwrap());
    assert_eq!(entries, vec![("cat.txt".to_string(), b"meow".to_vec(), Some(0o644))]);
}

#[test]
fn a_directory_becomes_a_marker_and_a_node_without_a_name_becomes_nothing() {
    let mut writer = ArchiveWriter::new();
    let root = parts("home/pets");
    let nodes = vec![
        SourceNode { path: parts("home"), is_file: false, mode: None, data: Vec::new() },
        dir("home/pets"),
        dir("home/pets/mice"),
    ];
    zip_folder(&mut writer, &root, &nodes).unwrap();
    let entries = entries_of(writer.finish().unwrap());
    assert_eq!(
        entries,
        vec![
            ("pets/".to_string(), Vec::new(), Some(0o755)),
            ("pets/mice/".to_string(), Vec::new(), Some(0o755)),
        ]
    );
}

#[test]
fn a_node_outside_the_tree_ends_the_writing() {
    let mut writer = ArchiveWriter::new();
    let root = parts("home/pets");
    let nodes = vec![file("home/pets/cat.txt", b"meow", None), file("else/where.txt", b"x", None)];
    match zip_folder(&mut writer, &root, &nodes) {
        Err(UnzipperError::PathError(PathError::NotUnderRoot)) => {}
        other => panic!("the second node is outside the tree, yet the result is {:?}", other),
    }
    let unreadable = vec![SourceNode {
        path: vec![PathPart::Name("home".to_string()), PathPart::NonText],
        is_file: true,
        mode: None,
        data: Vec::new(),
    }];
    let mut writer = ArchiveWriter::new();
    match zip_folder(&mut writer, &parts("home"), &unreadable) {
        Err(UnzipperError::PathError(PathError::Unrepresentable)) => {}
        other => panic!("the node has no name, yet the result is {:?}", other),
    }
    let mut writer = ArchiveWriter::new();
    let nameless = SourceNode { path: Vec::new(), is_file: true, mode: None, data: Vec::new() };
    match zip_file(&mut writer, &nameless) {
        Err(UnzipperError::PathError(PathError::NotUnderRoot)) => {}
        other => panic!("a file without a path has no name, yet the result is {:?}", other),
    }
    assert!(entries_of(writer.finish().unwrap()).is_empty());
}

#[test]
fn two_entries_of_one_name_are_refused_by_the_container() {
    let to_zip = ToZip::new("twice.zip").file("a/cat.txt").file("b/cat.txt");
    let found = vec![
        Found::File(file("a/cat.txt", b"one", None)),
        Found::File(file("b/cat.txt", b"two", None)),
    ];
    match to_zip.zip(found) {
        Err(UnzipperError::ZipError(_)) => {}
        other => panic!("the container takes a name once, yet the result is {:?}", other.map(|_| ())),
    }
}

#[test]
fn a_missing_file_is_not_found() {
    let to_zip = ToZip::new("pets.zip").file("pets/cat.txt");
    match to_zip.zip(vec![Found::Missing]) {
        Err(UnzipperError::FileNotFound(path)) => assert_eq!(path, "pets/cat.txt"),
        other => panic!("the file is missing, yet the result is {:?}", other.map(|_| ())),
    }
    match to_zip.zip(Vec::new()) {
        Err(UnzipperError::FileNotFound(path)) => assert_eq!(path, "pets/cat.txt"),
        other => panic!("nothing was found, yet the result is {:?}", other.map(|_| ())),
    }
}

#[test]
fn a_missing_folder_is_not_found() {
    let to_zip = ToZip::new("pets.zip").file("cat.txt").folder("pets/mice");
    let found = vec![Found::File(file("cat.txt", b"meow", None)), Found::Missing];
    match to_zip.zip(found) {
        Err(UnzipperError::FolderNotFound(path)) => assert_eq!(path, "pets/mice"),
        other => panic!("the folder is missing, yet the result is {:?}", other.map(|_| ())),
    }
}

#[test]
fn what_is_not_of_the_kind_declared_is_refused() {
    let as_file = ToZip::new("pets.zip").file("pets");
    match as_file.zip(vec![walked("pets", vec![dir("pets")])]) {
        Err(UnzipperError::WrongKind(path)) => assert_eq!(path, "pets"),
        other => panic!("a folder is no file, yet the result is {:?}", other.map(|_| ())),
    }
    let as_folder = ToZip::new("pets.zip").folder("cat.txt");
    match as_folder.zip(vec![Found::File(file("cat.txt", b"meow", None))]) {
        Err(UnzipperError::WrongKind(path)) => assert_eq!(path, "cat.txt"),
        other => panic!("a file is no folder, yet the result is {:?}", other.map(|_| ())),
    }
    let special = ToZip::new("pets.zip").file("dev/null");
    match special.zip(vec![Found::Other("dev/null".to_string())]) {
        Err(UnzipperError::WrongKind(path)) => assert_eq!(path, "dev/null"),
        other => panic!("a device is no file, yet the result is {:?}", other.map(|_| ())),
    }
}

#[test]
fn a_matcher_stands_for_a_file_or_a_folder() {
    let matcher = file_matcher::FileNamed::exact("cat.txt").within("pets");
    let to_zip = ToZip::new("pets.zip").one_entry(matcher.clone());
    let bytes = to_zip.zip(vec![Found::File(file("pets/cat.txt", b"meow", None))]).unwrap();
    assert_eq!(entries_of(bytes)[0].0, "cat.txt");
    let bytes =
        to_zip.zip(vec![walked("pets/mice", vec![dir("pets/mice")])]).unwrap();
    assert_eq!(entries_of(bytes)[0].0, "mice/");
    match to_zip.zip(vec![Found::Other("pets/socket".to_string())]) {
        Err(UnzipperError::UnknownEntryType(path)) => assert_eq!(path, "pets/socket"),
        other => panic!("a socket is neither, yet the result is {:?}", other.map(|_| ())),
    }
    match to_zip.zip(vec![Found::Missing]) {
        Err(UnzipperError::UnknownEntryType(path)) => assert_eq!(path, ""),
        other => panic!("nothing was found, yet the result is {:?}", other.map(|_| ())),
    }
    let failed = Found::Failed(GatherFailure::Matcher(file_matcher::FileMatcherError::NotExists(
        matcher,
    )));
    match to_zip.zip(vec![failed]) {
        Err(UnzipperError::FileMatcherError(file_matcher::FileMatcherError::NotExists(_))) => {}
        other => panic!("the search failed, yet the result is {:?}", other.map(|_| ())),
    }
}

#[test]
fn a_failure_to_gather_comes_back_as_it_is() {
    let to_zip = ToZip::new("pets.zip").file("cat.txt");
    match to_zip.zip(vec![Found::Failed(io_failure("disk on fire"))]) {
        Err(UnzipperError::IoError(error)) => assert_eq!(error.to_string(), "disk on fire"),
        other => panic!("reading failed, yet the result is {:?}", other.map(|_| ())),
    }
    let walk_error = walkdir::WalkDir::new("no/such/directory/anywhere")
        .into_iter()
        .next()
        .unwrap()
        .unwrap_err();
    let depth = walk_error.depth();
    match ToZip::new("pets.zip").folder("pets").zip(vec![Found::Failed(GatherFailure::Walk(
        walk_error,
    ))]) {
        Err(UnzipperError::WalkdirError(error)) => assert_eq!(error.depth(), depth),
        other => panic!("the walk failed, yet the result is {:?}", other.map(|_| ())),
    }
}

#[test]
fn a_walk_that_ends_early_fails_after_what_it_met() {
    let folder = WalkedFolder {
        root: parts("pets"),
        nodes: vec![dir("pets"), file("pets/cat.txt", b"meow", None)],
        failure: Some(io_failure("unreadable")),
    };
    let mut writer = ArchiveWriter::new();
    let what = WhatToZip::Folder("pets".to_string());
    match zip_thing(&mut writer, &what, Found::Folder(folder)) {
        Err(UnzipperError::IoError(error)) => assert_eq!(error.to_string(), "unreadable"),
        other => panic!("the walk ended early, yet the result is {:?}", other),
    }
    let names: Vec<String> =
        entries_of(writer.finish().unwrap()).into_iter().map(|entry| entry.0).collect();
    assert_eq!(names, vec!["pets/", "pets/cat.txt"]);
}

#[test]
fn the_first_thing_that_fails_ends_the_packing() {
    let to_zip = ToZip::new("pets.zip").file("a.txt").file("b.txt").folder("c");
    let found = vec![Found::File(file("a.txt", b"a", None)), Found::Missing, Found::Missing];
    match to_zip.zip(found) {
        Err(UnzipperError::FileNotFound(path)) => assert_eq!(path, "b.txt"),
        other => panic!("the second thing is missing, yet the result is {:?}", other.map(|_| ())),
    }
}

#[test]
fn an_error_of_packing_says_what_it_is() {
    let io = UnzipperError::IoError(std::io::Error::new(std::io::ErrorKind::Other, "disk"));
    assert_eq!(io.message(), "Input/Output error");
    let twice = ToZip::new("twice.zip").file("a/cat.txt").file("b/cat.txt");
    let found = vec![
        Found::File(file("a/cat.txt", b"one", None)),
        Found::File(file("b/cat.txt", b"two", None)),
    ];
    assert_eq!(twice.zip(found).unwrap_err().message(), "Zip error");
    let walk_error = walkdir::WalkDir::new("no/such/directory/anywhere")
        .into_iter()
        .next()
        .unwrap()
        .unwrap_err();
    assert_eq!(UnzipperError::WalkdirError(walk_error).message(), "Walkdir error");
    let matcher = file_matcher::FileNamed::exact("cat.txt").within("pets");
    let search = file_matcher::FileMatcherError::NotExists(matcher);
    assert_eq!(UnzipperError::FileMatcherError(search).message(), "File matcher error");
    assert_eq!(
        UnzipperError::UnknownEntryType("pets/socket".to_string()).message(),
        "Unknown entry type pets/socket"
    );
    assert_eq!(
        UnzipperError::FileNotFound("cat.txt".to_string()).message(),
        "File does not exist cat.txt"
    );
    assert_eq!(
        UnzipperError::FolderNotFound("pets".to_string()).message(),
        "Folder does not exist pets"
    );
    assert_eq!(
        UnzipperError::WrongKind("pets".to_string()).message(),
        "Not of the kind it was declared pets"
    );
    assert_eq!(
        UnzipperError::PathError(PathError::TooLong).message(),
        "Path has no entry name"
    );
}

#[test]
fn what_ends_the_packing_is_told_before_the_container_is_asked() {
    let as_file = WhatToZip::File("pets/cat.txt".to_string());
    let as_folder = WhatToZip::Folder("pets".to_string());
    assert!(ends_packing(&as_file, &Found::Missing));
    assert!(ends_packing(&as_file, &Found::Other("pets/cat.txt".to_string())));
    assert!(ends_packing(&as_file, &Found::Failed(io_failure("unreadable"))));
    assert!(ends_packing(&as_file, &walked("pets", vec![dir("pets")])));
    assert!(ends_packing(&as_folder, &Found::File(file("pets", b"x", None))));
    assert!(!ends_packing(&as_file, &Found::File(file("pets/cat.txt", b"meow", None))));
    assert!(ends_packing(&as_file, &Found::File(file(&"a".repeat(65_536), b"x", None))));
    let nameless = SourceNode { path: Vec::new(), is_file: true, mode: None, data: Vec::new() };
    assert!(ends_packing(&as_file, &Found::File(nameless)));
    assert!(!ends_packing(&as_folder, &walked("pets", vec![dir("pets"), file("pets/a", b"a", None)])));
    let outside = walked(
        "home/pets",
        vec![dir("home/pets"), file("else/where", b"a", None), dir("home/pets/b")],
    );
    assert!(ends_packing(&as_folder, &outside));
    let cut_short = Found::Folder(WalkedFolder {
        root: parts("pets"),
        nodes: vec![dir("pets")],
        failure: Some(io_failure("unreadable")),
    });
    assert!(ends_packing(&as_folder, &cut_short));
}

#[test]
fn an_archive_to_build_keeps_what_was_declared() {
    let matcher = file_matcher::FolderNamed::exact("mice").within("pets");
    let mut to_zip = ToZip::new("out/pets.zip").file("cat.txt").folder("dogs");
    to_zip.add_file("bird.txt");
    to_zip.add_folder("fish");
    to_zip.add_one_entry(matcher.clone());
    let to_zip = to_zip.one_entry(matcher.clone()).one_entries(vec![matcher.clone(), matcher]);
    assert_eq!(to_zip.archive(), "out/pets.zip");
    let kinds: Vec<String> = to_zip
        .what()
        .iter()
        .map(|what| match what {
            WhatToZip::File(path) => format!("file {}", path),
            WhatToZip::Folder(path) => format!("folder {}", path),
            WhatToZip::OneEntry(_) => "matcher".to_string(),
        })
        .collect();
    assert_eq!(
        kinds,
        vec![
            "file cat.txt",
            "folder dogs",
            "file bird.txt",
            "folder fish",
            "matcher",
            "matcher",
            "matcher",
            "matcher",
        ]
    );
    assert!(ToZip::new("empty.zip").what().is_empty());
    assert_eq!(to_zip.clone().what().len(), 8);
}
