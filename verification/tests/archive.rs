use ziptree::error::ArchiveError;
use ziptree::reader::extract_archive;
use ziptree::reader::ExtractStep;
use ziptree::reader::OutputPath;
use ziptree::writer::compress_file;
use ziptree::writer::create_archive;
use ziptree::writer::delivered;
use ziptree::writer::finish;
use ziptree::writer::hand_over;
use ziptree::writer::plan_archive;
use ziptree::writer::PlannedEntry;
use ziptree::writer::Source;
use ziptree::writer::SourceNode;

fn parts(path: &str) -> Vec<Vec<u8>> {
    path.split('/').filter(|part| !part.is_empty()).map(|part| part.as_bytes().to_vec()).collect()
}

fn dir(path: &str) -> Result<SourceNode, String> {
    Ok(SourceNode { path: parts(path), is_file: false, content: Ok(Vec::new()) })
}

fn file(path: &str, content: &[u8]) -> Result<SourceNode, String> {
    Ok(SourceNode { path: parts(path), is_file: true, content: Ok(content.to_vec()) })
}

fn tree(root: &str, nodes: Vec<Result<SourceNode, String>>) -> Source {
    Source::Directory { root: parts(root), nodes }
}

fn at(root: Option<&str>, relative: &str) -> OutputPath {
    OutputPath { root: root.map(|text| text.as_bytes().to_vec()), relative: relative.to_string() }
}

fn two_files_and_a_directory() -> Source {
    tree(
        "src",
        vec![dir("src"), file("src/a.txt", b"hi"), dir("src/sub"), file("src/sub/b.txt", b"yo")],
    )
}

#[test]
fn two_files_and_a_directory_plan_three_entries() {
    let plan = plan_archive(&two_files_and_a_directory(), 4).unwrap();
    assert_eq!(
        plan,
        vec![
            PlannedEntry::File { name: "a.txt".to_string(), payload: b"hi".to_vec() },
            PlannedEntry::Directory { name: "sub".to_string() },
            PlannedEntry::File { name: "sub/b.txt".to_string(), payload: b"yo".to_vec() },
        ]
    );
}

#[test]
fn two_files_and_a_directory_archive_three_entries() {
    let archive = create_archive(&two_files_and_a_directory(), 0, None, 4, None).unwrap();
    let extraction = extract_archive(archive, Some(b"out".to_vec()));
    assert_eq!(extraction.failure, None);
    let entries = &extraction.entries;
    assert_eq!(entries.len(), 3);
    assert_eq!(entries[0].name, "a.txt");
    assert!(!entries[0].is_dir);
    assert_eq!(entries[0].data, b"hi".to_vec());
    assert_eq!(entries[1].name, "sub/");
    assert!(entries[1].is_dir);
    assert_eq!(entries[1].data, Vec::<u8>::new());
    assert_eq!(entries[2].name, "sub/b.txt");
    assert!(!entries[2].is_dir);
    assert_eq!(entries[2].data, b"yo".to_vec());
}

#[test]
fn two_files_and_a_directory_are_restored() {
    let archive = create_archive(&two_files_and_a_directory(), 0, None, 4, None).unwrap();
    let extraction = extract_archive(archive, Some(b"out".to_vec()));
    assert_eq!(extraction.failure, None);
    assert_eq!(
        extraction.steps,
        vec![
            ExtractStep::CreateParentDirs { path: at(Some("out"), "a.txt") },
            ExtractStep::WriteFile { path: at(Some("out"), "a.txt"), entry: 0 },
            ExtractStep::SetPermissions { path: at(Some("out"), "a.txt"), mode: 0o100644 },
            ExtractStep::CreateDirAll { path: at(Some("out"), "sub/") },
            ExtractStep::SetPermissions { path: at(Some("out"), "sub/"), mode: 0o40755 },
            ExtractStep::CreateParentDirs { path: at(Some("out"), "sub/b.txt") },
            ExtractStep::WriteFile { path: at(Some("out"), "sub/b.txt"), entry: 2 },
            ExtractStep::SetPermissions { path: at(Some("out"), "sub/b.txt"), mode: 0o100644 },
        ]
    );
}

#[test]
fn extraction_without_output_directory_is_relative() {
    let archive = create_archive(&two_files_and_a_directory(), 0, None, 4, None).unwrap();
    let extraction = extract_archive(archive, None);
    assert_eq!(extraction.steps[0], ExtractStep::CreateParentDirs { path: at(None, "a.txt") });
    assert_eq!(extraction.steps[1], ExtractStep::WriteFile { path: at(None, "a.txt"), entry: 0 });
}

fn sample(len: usize) -> Vec<u8> {
    (0..len).map(|i| (i * 7 + 3) as u8).collect()
}

fn extracted_content(chunk: usize, method: u16) -> Vec<u8> {
    extracted(&sample(1000), chunk, method)
}

fn extracted(content: &[u8], chunk: usize, method: u16) -> Vec<u8> {
    let source = tree("root", vec![dir("root"), file("root/data.bin", content)]);
    let archive = create_archive(&source, method, None, chunk, None).unwrap();
    let mut extraction = extract_archive(archive, None);
    assert_eq!(extraction.failure, None);
    assert_eq!(extraction.entries.len(), 1);
    extraction.entries.remove(0).data
}

#[test]
fn chunk_sizes_give_identical_content() {
    let content = sample(1000);
    assert_eq!(extracted_content(1, 0), content);
    assert_eq!(extracted_content(16, 0), content);
    assert_eq!(extracted_content(65536, 0), content);
}

#[test]
fn chunk_sizes_give_identical_content_when_deflated() {
    let content = sample(1000);
    assert_eq!(extracted_content(1, 1), content);
    assert_eq!(extracted_content(16, 1), content);
    assert_eq!(extracted_content(65536, 1), content);
}

#[test]
fn chunk_of_zero_carries_nothing() {
    assert_eq!(extracted_content(0, 0), Vec::<u8>::new());
    let source = tree("root", vec![file("root/data.bin", b"abc")]);
    assert_eq!(
        plan_archive(&source, 0).unwrap(),
        vec![PlannedEntry::File { name: "data.bin".to_string(), payload: Vec::new() }]
    );
}

#[test]
fn chunk_sizes_give_identical_plans() {
    let source = tree("root", vec![dir("root"), file("root/data.bin", &sample(100))]);
    let one = plan_archive(&source, 1).unwrap();
    assert_eq!(plan_archive(&source, 16).unwrap(), one);
    assert_eq!(plan_archive(&source, 65536).unwrap(), one);
    assert_eq!(one, vec![PlannedEntry::File { name: "data.bin".to_string(), payload: sample(100) }]);
}

#[test]
fn non_utf8_path_fails_the_archive() {
    let mut bad = parts("root/ok");
    bad.push(vec![0x66, 0xff, 0xfe]);
    let source = tree(
        "root",
        vec![
            dir("root"),
            file("root/first.txt", b"1"),
            Ok(SourceNode { path: bad, is_file: true, content: Ok(b"2".to_vec()) }),
            file("root/last.txt", b"3"),
        ],
    );
    let offending = vec![0x6f, 0x6b, 0x2f, 0x66, 0xff, 0xfe];
    assert_eq!(
        create_archive(&source, 0, None, 4, None),
        Err(ArchiveError::NonUtf8Path(offending.clone()))
    );
    assert_eq!(plan_archive(&source, 4), Err(ArchiveError::NonUtf8Path(offending)));
}

#[test]
fn non_utf8_directory_fails_the_archive() {
    let source = tree(
        "root",
        vec![Ok(SourceNode { path: vec![b"root".to_vec(), vec![0xc3]], is_file: false, content: Ok(vec![]) })],
    );
    assert_eq!(create_archive(&source, 1, None, 8, None), Err(ArchiveError::NonUtf8Path(vec![0xc3])));
}

#[test]
fn empty_directory_gives_no_entry() {
    let source = tree("empty", vec![dir("empty")]);
    assert_eq!(plan_archive(&source, 4), Ok(vec![]));
    let archive = create_archive(&source, 0, None, 4, None).unwrap();
    let extraction = extract_archive(archive, None);
    assert_eq!(extraction.failure, None);
    assert_eq!(extraction.entries, vec![]);
    assert_eq!(extraction.steps, vec![]);
}

#[test]
fn one_empty_subdirectory_gives_one_directory_entry() {
    let source = tree("top", vec![dir("top"), dir("top/inner")]);
    assert_eq!(
        plan_archive(&source, 4),
        Ok(vec![PlannedEntry::Directory { name: "inner".to_string() }])
    );
    let archive = create_archive(&source, 0, None, 4, None).unwrap();
    let extraction = extract_archive(archive, Some(b"x".to_vec()));
    assert_eq!(extraction.failure, None);
    assert_eq!(extraction.entries.len(), 1);
    assert_eq!(extraction.entries[0].name, "inner/");
    assert!(extraction.entries[0].is_dir);
    assert_eq!(extraction.steps[0], ExtractStep::CreateDirAll { path: at(Some("x"), "inner/") });
}

#[test]
fn round_trip_restores_names_and_contents() {
    let big = sample(70000);
    let source = tree(
        "/data/tree",
        vec![
            dir("/data/tree"),
            dir("/data/tree/a"),
            file("/data/tree/a/one", b""),
            file("/data/tree/a/two.bin", &big),
            dir("/data/tree/a/b"),
            file("/data/tree/a/b/\u{e9}t\u{e9}.txt", "gr\u{fc}n".as_bytes()),
            file("/data/tree/z", b"z"),
        ],
    );
    let archive = create_archive(&source, 1, None, 1024, None).unwrap();
    let extraction = extract_archive(archive, Some(b"restored".to_vec()));
    assert_eq!(extraction.failure, None);
    let seen: Vec<(String, bool, Vec<u8>)> = extraction
        .entries
        .iter()
        .map(|entry| (entry.name.clone(), entry.is_dir, entry.data.clone()))
        .collect();
    assert_eq!(
        seen,
        vec![
            ("a/".to_string(), true, vec![]),
            ("a/one".to_string(), false, vec![]),
            ("a/two.bin".to_string(), false, big),
            ("a/b/".to_string(), true, vec![]),
            ("a/b/\u{e9}t\u{e9}.txt".to_string(), false, "gr\u{fc}n".as_bytes().to_vec()),
            ("z".to_string(), false, b"z".to_vec()),
        ]
    );
    for entry in &extraction.entries {
        assert_eq!(entry.enclosed.as_ref(), Some(&entry.name));
    }
    let written: Vec<(String, usize)> = extraction
        .steps
        .iter()
        .filter_map(|step| match step {
            ExtractStep::WriteFile { path, entry } => Some((path.relative.clone(), *entry)),
            _ => None,
        })
        .collect();
    assert_eq!(
        written,
        vec![
            ("a/one".to_string(), 1),
            ("a/two.bin".to_string(), 2),
            ("a/b/\u{e9}t\u{e9}.txt".to_string(), 4),
            ("z".to_string(), 5),
        ]
    );
}

#[test]
fn repeated_extraction_plans_the_same() {
    let archive = create_archive(&two_files_and_a_directory(), 1, Some(0o640), 3, None).unwrap();
    let first = extract_archive(archive.clone(), Some(b"out".to_vec()));
    let second = extract_archive(archive, Some(b"out".to_vec()));
    assert_eq!(first, second);
    assert_eq!(first.failure, None);
    assert_eq!(first.entries.len(), 3);
}

#[test]
fn permission_mode_is_stored_with_every_entry() {
    let archive = create_archive(&two_files_and_a_directory(), 0, Some(0o7640), 4, None).unwrap();
    let extraction = extract_archive(archive, None);
    assert_eq!(extraction.failure, None);
    assert_eq!(extraction.entries[0].unix_mode, Some(0o100640));
    assert_eq!(extraction.entries[1].unix_mode, Some(0o40640));
    assert_eq!(extraction.entries[2].unix_mode, Some(0o100640));
    assert_eq!(
        extraction.steps[2],
        ExtractStep::SetPermissions { path: at(None, "a.txt"), mode: 0o100640 }
    );
}

#[test]
fn traversal_failure_ends_the_archive() {
    let source = tree(
        "root",
        vec![dir("root"), file("root/a", b"a"), Err("permission denied".to_string()), file("root/b", b"b")],
    );
    assert_eq!(
        create_archive(&source, 0, None, 4, None),
        Err(ArchiveError::Traversal("permission denied".to_string()))
    );
    assert_eq!(plan_archive(&source, 4), Err(ArchiveError::Traversal("permission denied".to_string())));
}

#[test]
fn unreadable_file_ends_the_archive() {
    let source = tree(
        "root",
        vec![
            dir("root"),
            Ok(SourceNode { path: parts("root/locked"), is_file: true, content: Err("no access".to_string()) }),
        ],
    );
    assert_eq!(create_archive(&source, 0, None, 4, None), Err(ArchiveError::Io("no access".to_string())));
    assert_eq!(plan_archive(&source, 4), Err(ArchiveError::Io("no access".to_string())));
}

#[test]
fn unreadable_directory_content_is_not_looked_at() {
    let source = tree(
        "root",
        vec![Ok(SourceNode { path: parts("root/d"), is_file: false, content: Err("unused".to_string()) })],
    );
    assert_eq!(plan_archive(&source, 4), Ok(vec![PlannedEntry::Directory { name: "d".to_string() }]));
}

#[test]
fn path_outside_the_root_ends_the_archive() {
    let source = tree("root/inner", vec![file("root/other/file", b"x")]);
    assert_eq!(
        create_archive(&source, 0, None, 4, None),
        Err(ArchiveError::OutsideRoot(b"root/other/file".to_vec()))
    );
}

#[test]
fn name_error_comes_before_read_error() {
    let source = tree(
        "root",
        vec![Ok(SourceNode { path: vec![b"root".to_vec(), vec![0xff]], is_file: true, content: Err("gone".to_string()) })],
    );
    assert_eq!(plan_archive(&source, 4), Err(ArchiveError::NonUtf8Path(vec![0xff])));
}

#[test]
fn first_failure_decides() {
    let source = tree(
        "root",
        vec![
            Ok(SourceNode { path: parts("root/locked"), is_file: true, content: Err("first".to_string()) }),
            Err("second".to_string()),
        ],
    );
    assert_eq!(plan_archive(&source, 4), Err(ArchiveError::Io("first".to_string())));
}

#[test]
fn too_long_name_is_refused() {
    let long = "n".repeat(65536);
    let source = tree(
        "root",
        vec![Ok(SourceNode { path: vec![b"root".to_vec(), long.clone().into_bytes()], is_file: true, content: Ok(vec![]) })],
    );
    assert_eq!(create_archive(&source, 0, None, 4, None), Err(ArchiveError::NameTooLong(long.clone())));
    assert_eq!(plan_archive(&source, 4), Err(ArchiveError::NameTooLong(long)));
}

#[test]
fn longest_name_is_stored() {
    let long = "n".repeat(65535);
    let source = tree(
        "root",
        vec![Ok(SourceNode { path: vec![b"root".to_vec(), long.clone().into_bytes()], is_file: true, content: Ok(b"x".to_vec()) })],
    );
    let archive = create_archive(&source, 0, None, 4, None).unwrap();
    let extraction = extract_archive(archive, None);
    assert_eq!(extraction.failure, None);
    assert_eq!(extraction.entries[0].name, long);
    assert_eq!(extraction.entries[0].data, b"x".to_vec());
}

#[test]
fn too_long_directory_name_is_refused() {
    let long = "d".repeat(65535);
    let source = tree(
        "root",
        vec![Ok(SourceNode { path: vec![b"root".to_vec(), long.clone().into_bytes()], is_file: false, content: Ok(vec![]) })],
    );
    assert_eq!(create_archive(&source, 0, None, 4, None), Err(ArchiveError::NameTooLong(long)));
    let fits = "d".repeat(65534);
    let source = tree(
        "root",
        vec![Ok(SourceNode { path: vec![b"root".to_vec(), fits.clone().into_bytes()], is_file: false, content: Ok(vec![]) })],
    );
    let archive = create_archive(&source, 0, None, 4, None).unwrap();
    let extraction = extract_archive(archive, None);
    assert_eq!(extraction.entries[0].name, fits + "/");
}

#[test]
fn method_without_encoder_is_refused_by_the_container() {
    let source = tree("root", vec![file("root/a", b"a")]);
    for method in [2u16, 4, 6] {
        match create_archive(&source, method, None, 4, None) {
            Err(ArchiveError::Container(message)) => assert!(message.contains("unsupported")),
            other => panic!("method {} gave {:?}", method, other),
        }
    }
}

#[test]
fn every_encoding_method_round_trips() {
    let content = sample(5000);
    for method in [0u16, 1, 3, 5, 7, 999] {
        assert_eq!(extracted(&content, 64, method), content);
    }
}

#[test]
fn directories_are_stored_whatever_the_method() {
    let source = tree("root", vec![dir("root/d")]);
    let archive = create_archive(&source, 2, None, 4, None).unwrap();
    let extraction = extract_archive(archive, None);
    assert_eq!(extraction.failure, None);
    assert_eq!(extraction.entries[0].name, "d/");
}

#[test]
fn duplicate_names_are_refused_by_the_container() {
    let source = tree("root", vec![file("root/a", b"1"), file("root/a", b"2")]);
    match create_archive(&source, 0, None, 4, None) {
        Err(ArchiveError::Container(message)) => assert!(message.contains("Duplicate")),
        other => panic!("{:?}", other),
    }
    assert_eq!(plan_archive(&source, 4).unwrap().len(), 2);
}

#[test]
fn single_file_is_named_by_its_path() {
    let archive = compress_file(&b"some/dir/file.txt".to_vec(), &Ok(b"content".to_vec()), 0, None, 3, None).unwrap();
    let extraction = extract_archive(archive, Some(b"o".to_vec()));
    assert_eq!(extraction.failure, None);
    assert_eq!(extraction.entries.len(), 1);
    assert_eq!(extraction.entries[0].name, "some/dir/file.txt");
    assert_eq!(extraction.entries[0].data, b"content".to_vec());
    assert_eq!(
        extraction.steps[1],
        ExtractStep::WriteFile { path: at(Some("o"), "some/dir/file.txt"), entry: 0 }
    );
}

#[test]
fn single_file_goes_through_create_archive() {
    let source = Source::File { path: b"plain.txt".to_vec(), content: Ok(b"12345".to_vec()) };
    assert_eq!(
        plan_archive(&source, 2),
        Ok(vec![PlannedEntry::File { name: "plain.txt".to_string(), payload: b"12345".to_vec() }])
    );
    let archive = create_archive(&source, 1, None, 2, None).unwrap();
    let extraction = extract_archive(archive, None);
    assert_eq!(extraction.entries[0].name, "plain.txt");
    assert_eq!(extraction.entries[0].data, b"12345".to_vec());
}

#[test]
fn single_file_with_absolute_path_is_skipped_on_extraction() {
    let archive = compress_file(&b"/tmp/file.txt".to_vec(), &Ok(b"c".to_vec()), 0, None, 3, None).unwrap();
    let extraction = extract_archive(archive, Some(b"o".to_vec()));
    assert_eq!(extraction.failure, None);
    assert_eq!(extraction.entries[0].name, "/tmp/file.txt");
    assert_eq!(extraction.entries[0].enclosed, None);
    assert_eq!(extraction.steps, vec![]);
}

#[test]
fn single_file_errors_in_order() {
    let unreadable: Result<Vec<u8>, String> = Err("denied".to_string());
    assert_eq!(
        compress_file(&vec![0xff], &unreadable, 0, None, 3, None),
        Err(ArchiveError::Io("denied".to_string()))
    );
    assert_eq!(
        compress_file(&vec![0x61, 0xff], &Ok(vec![]), 0, None, 3, None),
        Err(ArchiveError::NonUtf8Path(vec![0x61, 0xff]))
    );
    let long = "x".repeat(70000);
    assert_eq!(
        compress_file(&long.clone().into_bytes(), &Ok(vec![]), 0, None, 3, None),
        Err(ArchiveError::NameTooLong(long))
    );
    let source = Source::File { path: vec![0x80], content: Ok(vec![]) };
    assert_eq!(plan_archive(&source, 1), Err(ArchiveError::NonUtf8Path(vec![0x80])));
}

#[test]
fn password_encrypts_every_file() {
    let archive =
        create_archive(&two_files_and_a_directory(), 1, None, 4, Some("secret".to_string())).unwrap();
    let extraction = extract_archive(archive.clone(), None);
    match &extraction.failure {
        Some(ArchiveError::Container(message)) => assert!(message.contains("Password required")),
        other => panic!("{:?}", other),
    }
    assert_eq!(extraction.entries, vec![]);
    assert_eq!(extraction.steps, vec![]);
    let mut reader = zip::ZipArchive::new(std::io::Cursor::new(archive)).unwrap();
    assert_eq!(reader.len(), 3);
    let mut text = String::new();
    let mut entry = reader.by_index_decrypt(0, b"secret").unwrap();
    std::io::Read::read_to_string(&mut entry, &mut text).unwrap();
    assert_eq!(text, "hi");
    assert!(entry.encrypted());
}

#[test]
fn garbage_is_no_archive() {
    let extraction = extract_archive(b"this is not an archive".to_vec(), None);
    assert!(matches!(extraction.failure, Some(ArchiveError::Container(_))));
    assert_eq!(extraction.entries, vec![]);
    assert_eq!(extraction.steps, vec![]);
}

#[test]
fn file_as_root_gets_an_entry_of_empty_name() {
    let source = tree("root", vec![file("root", b"odd")]);
    assert_eq!(
        plan_archive(&source, 4),
        Ok(vec![PlannedEntry::File { name: String::new(), payload: b"odd".to_vec() }])
    );
}

#[test]
fn finished_archive_is_delivered_as_it_came() {
    assert_eq!(delivered(Ok(vec![0x50, 0x4b, 0x05, 0x06])), Ok(vec![0x50, 0x4b, 0x05, 0x06]));
    assert_eq!(delivered(Ok(Vec::new())), Ok(Vec::new()));
    assert_eq!(
        delivered(Err(zip::result::ZipError::FileNotFound)),
        Err(ArchiveError::Container("specified file not found in archive".to_string()))
    );
    assert_eq!(
        delivered(Err(zip::result::ZipError::UnsupportedArchive("no such method"))),
        Err(ArchiveError::Container("unsupported Zip archive: no such method".to_string()))
    );
}

#[test]
fn own_failures_come_before_the_container() {
    let mut bad = parts("root");
    bad.push(vec![0x66, 0x6f, 0x80]);
    let source = tree(
        "root",
        vec![
            file("root/first.txt", b"1"),
            Ok(SourceNode { path: bad, is_file: true, content: Ok(b"2".to_vec()) }),
        ],
    );
    for method in [0u16, 2, 4, 6] {
        assert_eq!(
            create_archive(&source, method, None, 4, None),
            Err(ArchiveError::NonUtf8Path(vec![0x66, 0x6f, 0x80]))
        );
    }
    let source = tree(
        "root",
        vec![file("root/a", b"1"), file("root/a", b"2"), Err("walk broke".to_string())],
    );
    assert_eq!(
        create_archive(&source, 0, None, 4, None),
        Err(ArchiveError::Traversal("walk broke".to_string()))
    );
    let unreadable: Result<Vec<u8>, String> = Err("denied".to_string());
    assert_eq!(
        compress_file(&b"a.txt".to_vec(), &unreadable, 2, None, 4, None),
        Err(ArchiveError::Io("denied".to_string()))
    );
    assert_eq!(
        compress_file(&vec![0x80], &Ok(vec![1]), 6, Some(0o600), 4, Some("pw".to_string())),
        Err(ArchiveError::NonUtf8Path(vec![0x80]))
    );
}

#[test]
fn entries_are_stored_with_the_options_asked_for() {
    let source = two_files_and_a_directory();
    let plain = create_archive(&source, 0, None, 4, None).unwrap();
    let mut reader = zip::ZipArchive::new(std::io::Cursor::new(plain)).unwrap();
    for index in 0..3 {
        let entry = reader.by_index(index).unwrap();
        assert_eq!(entry.compression(), zip::CompressionMethod::Stored);
        assert!(!entry.encrypted());
    }
    let packed = create_archive(&source, 1, Some(0o4750), 4, Some("pw".to_string())).unwrap();
    let mut reader = zip::ZipArchive::new(std::io::Cursor::new(packed)).unwrap();
    let names: Vec<String> = reader.file_names().map(|name| name.to_string()).collect();
    assert_eq!(names, vec!["a.txt", "sub/", "sub/b.txt"]);
    {
        let file = reader.by_index_decrypt(0, b"pw").unwrap();
        assert!(file.encrypted());
        assert_eq!(file.compression(), zip::CompressionMethod::Deflated);
        assert_eq!(file.unix_mode(), Some(0o100750));
    }
    {
        let directory = reader.by_index(1).unwrap();
        assert!(!directory.encrypted());
        assert_eq!(directory.compression(), zip::CompressionMethod::Stored);
        assert_eq!(directory.unix_mode(), Some(0o40750));
    }
    for (code, method) in [(3u16, zip::CompressionMethod::Bzip2), (5, zip::CompressionMethod::Zstd)] {
        let archive = compress_file(&b"f".to_vec(), &Ok(b"data".to_vec()), code, None, 4, None).unwrap();
        let mut reader = zip::ZipArchive::new(std::io::Cursor::new(archive)).unwrap();
        let entry = reader.by_index(0).unwrap();
        assert_eq!(entry.compression(), method);
        assert_eq!(entry.unix_mode(), Some(0o100644));
        assert!(!entry.encrypted());
    }
}

#[test]
fn planned_entries_are_handed_over_and_finished() {
    let plan = plan_archive(&two_files_and_a_directory(), 4).unwrap();
    let sink = hand_over(&plan, 3, Some(0o700), 4, Some("key".to_string())).unwrap();
    let archive = finish(sink).unwrap();
    let mut reader = zip::ZipArchive::new(std::io::Cursor::new(archive)).unwrap();
    assert_eq!(reader.len(), 3);
    {
        let mut file = reader.by_index_decrypt(2, b"key").unwrap();
        assert_eq!(file.name(), "sub/b.txt");
        assert_eq!(file.compression(), zip::CompressionMethod::Bzip2);
        assert!(file.encrypted());
        assert_eq!(file.unix_mode(), Some(0o100700));
        let mut text = String::new();
        std::io::Read::read_to_string(&mut file, &mut text).unwrap();
        assert_eq!(text, "yo");
    }
    let directory = reader.by_index(1).unwrap();
    assert_eq!(directory.name(), "sub/");
    assert_eq!(directory.unix_mode(), Some(0o40700));
    assert!(!directory.encrypted());
}

#[test]
fn handing_over_fails_only_with_the_container() {
    let plan = plan_archive(&two_files_and_a_directory(), 4).unwrap();
    match hand_over(&plan, 6, None, 4, None) {
        Err(ArchiveError::Container(message)) => assert!(message.contains("LZMA")),
        other => panic!("{:?}", other.map(|_| ())),
    }
    let empty = hand_over(&Vec::new(), 6, None, 4, None).unwrap();
    let archive = finish(empty).unwrap();
    let extraction = extract_archive(archive, None);
    assert_eq!(extraction.failure, None);
    assert_eq!(extraction.entries, vec![]);
}

#[test]
fn buffer_of_no_bytes_hands_over_nothing_of_a_payload() {
    let plan = vec![PlannedEntry::File { name: "f".to_string(), payload: b"kept back".to_vec() }];
    let archive = finish(hand_over(&plan, 0, None, 0, None).unwrap()).unwrap();
    let extraction = extract_archive(archive, None);
    assert_eq!(extraction.entries[0].data, Vec::<u8>::new());
    let archive = finish(hand_over(&plan, 0, None, 3, None).unwrap()).unwrap();
    let extraction = extract_archive(archive, None);
    assert_eq!(extraction.entries[0].data, b"kept back".to_vec());
}
