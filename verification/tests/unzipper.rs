use archiver::archive::ArchiveReader;
use archiver::coordinator::Coordinator;
use archiver::paths::PathPart;
use archiver::unzipper::{
    classify, names_marker, unzip_task, EntryKind, ExtractStep, FileToUnzip, FilesToUnzip,
    UnzipperError,
};
use std::collections::BTreeMap;
use std::io::Write;

fn name(text: &str) -> PathPart {
    PathPart::Name(text.to_string())
}

fn names(text: &str) -> Vec<PathPart> {
    text.split('/').map(name).collect()
}

/// An archive of these entries, stored without compression. A name that ends
/// in `/` is written as a directory marker.
fn archive_of(entries: &[(&str, &[u8], Option<u32>)]) -> Vec<u8> {
    let mut writer = zip::ZipWriter::new(std::io::Cursor::new(Vec::new()));
    for (name, data, mode) in entries {
        let options = zip::write::SimpleFileOptions::default()
            .compression_method(zip::CompressionMethod::Stored);
        let options = match mode {
            Some(bits) => options.unix_permissions(*bits),
            None => options,
        };
        if name.ends_with('/') {
            writer.add_directory(*name, options).unwrap();
        } else {
            writer.start_file(*name, options).unwrap();
            writer.write_all(data).unwrap();
        }
    }
    writer.finish().unwrap().into_inner()
}

fn steps_of(bytes: Vec<u8>) -> Vec<ExtractStep> {
    let mut reader = ArchiveReader::open(bytes).unwrap();
    let extraction = unzip_task(&mut reader);
    assert!(extraction.failure.is_none());
    assert_eq!(extraction.steps.len(), extraction.total);
    extraction.steps
}

/// Takes the steps on a tree kept in a map: a path leads to `None` where a
/// directory stands and to the content where a file stands.
fn take_steps(tree: &mut BTreeMap<String, Option<Vec<u8>>>, output: &str, steps: &[ExtractStep]) {
    for step in steps {
        let (place, data) = match step {
            ExtractStep::Skip => continue,
            ExtractStep::MakeDir { place, .. } => (place, None),
            ExtractStep::WriteFile { place, data, .. } => (place, Some(data.clone())),
        };
        let mut at = output.to_string();
        tree.entry(at.clone()).or_insert(None);
        for (index, part) in place.iter().enumerate() {
            match part {
                PathPart::Name(text) => {
                    at.push('/');
                    at.push_str(text);
                }
                other => panic!("a step holds the component {:?}", other),
            }
            if index + 1 < place.len() {
                tree.entry(at.clone()).or_insert(None);
            }
        }
        match data {
            Some(content) => {
                tree.insert(at, Some(content));
            }
            None => {
                tree.entry(at).or_insert(None);
            }
        }
    }
}

fn is_dir(tree: &BTreeMap<String, Option<Vec<u8>>>, path: &str) -> bool {
    matches!(tree.get(path), Some(None))
}

fn is_file(tree: &BTreeMap<String, Option<Vec<u8>>>, path: &str) -> bool {
    matches!(tree.get(path), Some(Some(_)))
}

#[test]
fn a_request_keeps_its_paths() {
    let file = FileToUnzip::new("archives/cat.zip", "out/cat");
    assert_eq!(file.archive(), "archives/cat.zip");
    assert_eq!(file.output(), "out/cat");
    let copy = file.clone();
    assert_eq!(copy.archive(), "archives/cat.zip");
    assert_eq!(copy.output(), "out/cat");
}

#[test]
fn a_batch_keeps_the_order_of_its_requests() {
    let batch = FilesToUnzip::new();
    assert!(batch.is_empty());
    assert_eq!(batch.len(), 0);
    let batch = batch
        .add(FileToUnzip::new("a.zip", "a"))
        .add_file("b.zip", "b")
        .maybe_add(None)
        .maybe_add(Some(FileToUnzip::new("c.zip", "c")));
    assert!(!batch.is_empty());
    assert_eq!(batch.len(), 3);
    let archives: Vec<&str> = batch.files().iter().map(|file| file.archive()).collect();
    assert_eq!(archives, vec!["a.zip", "b.zip", "c.zip"]);
    let outputs: Vec<&str> = batch.files().iter().map(|file| file.output()).collect();
    assert_eq!(outputs, vec!["a", "b", "c"]);
}

#[test]
fn a_batch_is_made_from_a_list_and_extended_by_another_batch() {
    let first = FilesToUnzip::from(vec![FileToUnzip::new("a.zip", "a"), FileToUnzip::new("b.zip", "b")]);
    let second = FilesToUnzip::new().add_file("c.zip", "c");
    let both = first.extend(second);
    let archives: Vec<&str> = both.files().iter().map(|file| file.archive()).collect();
    assert_eq!(archives, vec!["a.zip", "b.zip", "c.zip"]);
    assert!(FilesToUnzip::from(Vec::new()).is_empty());
    assert!(FilesToUnzip::new().extend(FilesToUnzip::new()).is_empty());
}

#[test]
fn a_name_that_ends_in_a_slash_is_a_marker() {
    assert!(names_marker("mice/"));
    assert!(names_marker("/"));
    assert!(!names_marker("mice"));
    assert!(!names_marker("mice/jerry.txt"));
    assert!(!names_marker(""));
    assert!(!names_marker("mice\\"));
}

#[test]
fn an_entry_is_a_directory_a_file_or_passed_over() {
    assert_eq!(classify("mice/", &Some(names("mice"))), EntryKind::Directory);
    assert_eq!(classify("mice/jerry.txt", &Some(names("mice/jerry.txt"))), EntryKind::File);
    assert_eq!(classify("../evil.txt", &None), EntryKind::Skipped);
    let escaping = vec![PathPart::Parent, name("evil.txt")];
    assert_eq!(classify("../evil.txt", &Some(escaping)), EntryKind::Skipped);
    let rooted = vec![PathPart::Anchor("/".to_string()), name("etc")];
    assert_eq!(classify("/etc", &Some(rooted)), EntryKind::Skipped);
    let inside = vec![name("a"), PathPart::Parent, name("b")];
    assert_eq!(classify("a/../b", &Some(inside)), EntryKind::File);
}

#[test]
fn every_entry_gives_its_step_in_the_order_of_the_archive() {
    let bytes = archive_of(&[
        ("mice/", b"", None),
        ("mice/jerry.txt", b"jerry", Some(0o644)),
        ("cat.txt", b"meow", Some(0o755)),
    ]);
    let steps = steps_of(bytes);
    assert_eq!(
        steps,
        vec![
            ExtractStep::MakeDir { place: names("mice"), mode: Some(0o40755) },
            ExtractStep::WriteFile {
                place: names("mice/jerry.txt"),
                data: b"jerry".to_vec(),
                mode: Some(0o100644),
            },
            ExtractStep::WriteFile {
                place: names("cat.txt"),
                data: b"meow".to_vec(),
                mode: Some(0o100755),
            },
        ]
    );
}

#[test]
fn an_entry_that_would_leave_the_output_directory_is_passed_over() {
    let bytes = archive_of(&[
        ("../evil.txt", b"evil", None),
        ("/etc/passwd", b"root", None),
        ("a/../../evil.txt", b"evil", None),
        ("good.txt", b"good", None),
    ]);
    let steps = steps_of(bytes);
    assert_eq!(steps.len(), 4);
    assert_eq!(steps[0], ExtractStep::Skip);
    assert_eq!(steps[1], ExtractStep::Skip);
    assert_eq!(steps[2], ExtractStep::Skip);
    match &steps[3] {
        ExtractStep::WriteFile { place, data, .. } => {
            assert_eq!(place, &names("good.txt"));
            assert_eq!(data, &b"good".to_vec());
        }
        other => panic!("the last entry is a file, not {:?}", other),
    }
    let mut tree = BTreeMap::new();
    take_steps(&mut tree, "out", &steps);
    let paths: Vec<&String> = tree.keys().collect();
    assert_eq!(paths, vec!["out", "out/good.txt"]);
}

#[test]
fn a_name_that_goes_up_and_stays_inside_is_extracted() {
    let bytes = archive_of(&[("a/../b.txt", b"b", None)]);
    let steps = steps_of(bytes);
    match &steps[0] {
        ExtractStep::WriteFile { place, .. } => {
            assert_eq!(place, &vec![name("a"), PathPart::Parent, name("b.txt")]);
        }
        other => panic!("the entry is a file, not {:?}", other),
    }
}

#[test]
fn an_empty_archive_takes_no_step() {
    let bytes = archive_of(&[]);
    let mut reader = ArchiveReader::open(bytes).unwrap();
    assert_eq!(reader.len(), 0);
    let extraction = unzip_task(&mut reader);
    assert_eq!(extraction.total, 0);
    assert!(extraction.steps.is_empty());
    assert!(extraction.failure.is_none());
}

#[test]
fn bytes_that_are_no_archive_do_not_open() {
    assert!(ArchiveReader::open(Vec::new()).is_err());
    assert!(ArchiveReader::open(b"this is no archive at all".to_vec()).is_err());
}

#[test]
fn an_entry_that_cannot_be_read_ends_the_reading() {
    let mut bytes = archive_of(&[("a.txt", b"AAAA", None), ("b.txt", b"BBBB", None), ("c.txt", b"CCCC", None)]);
    let at = bytes.windows(4).position(|window| window == b"BBBB").unwrap();
    bytes[at] = b'X';
    let mut reader = ArchiveReader::open(bytes).unwrap();
    let extraction = unzip_task(&mut reader);
    assert_eq!(extraction.total, 3);
    assert_eq!(extraction.steps.len(), 1);
    match &extraction.steps[0] {
        ExtractStep::WriteFile { place, data, .. } => {
            assert_eq!(place, &names("a.txt"));
            assert_eq!(data, &b"AAAA".to_vec());
        }
        other => panic!("the first entry is a file, not {:?}", other),
    }
    match extraction.failure {
        Some(UnzipperError::ZipError(_)) => {}
        other => panic!("the reading ends with an error of the container, not {:?}", other),
    }
}

#[test]
fn reading_an_archive_twice_gives_the_same_steps() {
    let bytes = archive_of(&[
        ("mice/", b"", None),
        ("mice/jerry.txt", b"jerry", Some(0o644)),
        ("../evil.txt", b"evil", None),
    ]);
    let mut reader = ArchiveReader::open(bytes.clone()).unwrap();
    let first = unzip_task(&mut reader);
    let second = unzip_task(&mut reader);
    assert_eq!(first.steps, second.steps);
    let mut other = ArchiveReader::open(bytes).unwrap();
    let third = unzip_task(&mut other);
    assert_eq!(first.steps, third.steps);
    let mut once = BTreeMap::new();
    take_steps(&mut once, "out", &first.steps);
    let mut twice = once.clone();
    take_steps(&mut twice, "out", &second.steps);
    assert_eq!(once, twice);
}

#[test]
fn an_error_says_what_it_is() {
    let io = UnzipperError::IoError(std::io::Error::new(std::io::ErrorKind::Other, "disk"));
    assert_eq!(io.message(), "Input/Output error");
    match ArchiveReader::open(Vec::new()) {
        Err(error) => assert_eq!(UnzipperError::ZipError(error).message(), "Zip error"),
        Ok(_) => panic!("no bytes are no archive"),
    }
    let runtime = tokio::runtime::Builder::new_current_thread().build().unwrap();
    let task = runtime.spawn(std::future::pending::<()>());
    task.abort();
    let cancelled = runtime.block_on(task).unwrap_err();
    assert_eq!(UnzipperError::JoinError(cancelled).message(), "Task join error");
}

#[test]
fn unzip() {
    let cat = FileToUnzip::new("archives/cat.zip", "out/cat");
    let dog = FileToUnzip::new("archives/dog.zip", "out/dog");
    let mice = FileToUnzip::new("archives/mice.zip", "out");
    let to_unzip = FilesToUnzip::from(vec![cat.clone(), dog.clone(), mice.clone()]);
    let archives = vec![
        archive_of(&[("cat.txt", b"cat", None)]),
        archive_of(&[("dog.txt", b"dog", None)]),
        archive_of(&[
            ("mice/", b"", None),
            ("mice/jerry.txt", b"jerry", None),
            ("mice/cherie.txt", b"cherie", None),
        ]),
    ];

    let mut tree = BTreeMap::new();
    let mut coordinator = Coordinator::new(to_unzip.len());
    let mut running = Vec::new();
    while !coordinator.is_done() {
        loop {
            let (next, started) = coordinator.dispatch();
            coordinator = next;
            match started {
                Some(index) => running.push(index),
                None => break,
            }
        }
        assert!(running.len() <= 2);
        let index = running.remove(0);
        let mut reader = ArchiveReader::open(archives[index].clone()).unwrap();
        let extraction = unzip_task(&mut reader);
        take_steps(&mut tree, to_unzip.files()[index].output(), &extraction.steps);
        let outcome = match extraction.failure {
            Some(error) => Err(error),
            None => Ok(()),
        };
        coordinator = coordinator.complete(index, outcome);
    }
    assert!(coordinator.finish().is_ok());

    let join = |base: &str, rest: &str| format!("{}/{}", base, rest);
    assert!(tree.contains_key(cat.output()));
    assert!(is_dir(&tree, cat.output()));
    assert!(tree.contains_key(&join(cat.output(), "cat.txt")));
    assert!(is_file(&tree, &join(cat.output(), "cat.txt")));
    assert!(tree.contains_key(dog.output()));
    assert!(is_dir(&tree, dog.output()));
    assert!(tree.contains_key(&join(dog.output(), "dog.txt")));
    assert!(is_file(&tree, &join(dog.output(), "dog.txt")));

    assert!(tree.contains_key(&join(mice.output(), "mice")));
    assert!(is_dir(&tree, &join(mice.output(), "mice")));
    assert!(tree.contains_key(&join(mice.output(), "mice/jerry.txt")));
    assert!(is_file(&tree, &join(mice.output(), "mice/jerry.txt")));
    assert!(tree.contains_key(&join(mice.output(), "mice/cherie.txt")));
    assert!(is_file(&tree, &join(mice.output(), "mice/cherie.txt")));
}

#[test]
fn a_corrupt_archive_fails_the_batch_and_leaves_the_others_extracted() {
    let requests = FilesToUnzip::new()
        .add_file("a.zip", "out/a")
        .add_file("bad.zip", "out/bad")
        .add_file("c.zip", "out/c");
    let archives = vec![
        archive_of(&[("a.txt", b"a", None)]),
        b"not an archive".to_vec(),
        archive_of(&[("c.txt", b"c", None)]),
    ];
    let mut tree = BTreeMap::new();
    let mut coordinator = Coordinator::new(requests.len());
    let mut running = Vec::new();
    while !coordinator.is_done() {
        loop {
            let (next, started) = coordinator.dispatch();
            coordinator = next;
            match started {
                Some(index) => running.push(index),
                None => break,
            }
        }
        let index = running.remove(0);
        let outcome = match ArchiveReader::open(archives[index].clone()) {
            Err(error) => Err(UnzipperError::ZipError(error)),
            Ok(mut reader) => {
                let extraction = unzip_task(&mut reader);
                take_steps(&mut tree, requests.files()[index].output(), &extraction.steps);
                match extraction.failure {
                    Some(error) => Err(error),
                    None => Ok(()),
                }
            }
        };
        coordinator = coordinator.complete(index, outcome);
    }
    match coordinator.finish() {
        Err(UnzipperError::ZipError(_)) => {}
        other => panic!("the batch fails with the error of the corrupt archive, not {:?}", other),
    }
    assert_eq!(tree.get("out/a/a.txt"), Some(&Some(b"a".to_vec())));
    assert_eq!(tree.get("out/c/c.txt"), Some(&Some(b"c".to_vec())));
    assert!(!tree.contains_key("out/bad"));
}
