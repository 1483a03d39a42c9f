use ziptree::cli::Args;
use ziptree::cli::Commands;
use ziptree::container::KeyLength;
use ziptree::error::ArchiveError;
use ziptree::method::into_comp_method;
use ziptree::method::CompressionMethod;
use ziptree::options::EntryOptions;
use ziptree::path::entry_name;
use ziptree::path::is_under_root;
use ziptree::path::join_from;
use ziptree::path::plan_node;
use ziptree::path::same_bytes;
use ziptree::path::NodePlan;
use ziptree::stream::stream_chunks;
use ziptree::stream::stream_from;
use ziptree::stream::ByteSource;
use ziptree::stream::ChunkSource;

fn parts(path: &str) -> Vec<Vec<u8>> {
    path.split('/').filter(|part| !part.is_empty()).map(|part| part.as_bytes().to_vec()).collect()
}

#[test]
fn method_codes_select_methods() {
    assert_eq!(into_comp_method(0), CompressionMethod::Stored);
    assert_eq!(into_comp_method(1), CompressionMethod::Deflated);
    assert_eq!(into_comp_method(2), CompressionMethod::Deflate64);
    assert_eq!(into_comp_method(3), CompressionMethod::Bzip2);
    assert_eq!(into_comp_method(4), CompressionMethod::Aes);
    assert_eq!(into_comp_method(5), CompressionMethod::Zstd);
    assert_eq!(into_comp_method(6), CompressionMethod::Lzma);
}

#[test]
fn unknown_method_codes_select_deflate() {
    assert_eq!(into_comp_method(7), CompressionMethod::Deflated);
    assert_eq!(into_comp_method(8), CompressionMethod::Deflated);
    assert_eq!(into_comp_method(65535), CompressionMethod::Deflated);
}

#[test]
fn options_follow_the_parameters() {
    let plain = EntryOptions::new(0, None, None);
    assert_eq!(
        plain,
        EntryOptions { method: CompressionMethod::Stored, unix_mode: None, encryption: None }
    );
    let full = EntryOptions::new(5, Some(0o755), Some("pw".to_string()));
    assert_eq!(
        full,
        EntryOptions {
            method: CompressionMethod::Zstd,
            unix_mode: Some(0o755),
            encryption: Some((KeyLength::Aes256, "pw".to_string())),
        }
    );
    assert_eq!(EntryOptions::new(77, None, None).method, CompressionMethod::Deflated);
}

#[test]
fn entry_name_strips_the_root() {
    assert_eq!(entry_name(&parts("a/b"), &parts("a/b/c/d.txt")), Ok("c/d.txt".to_string()));
    assert_eq!(entry_name(&parts("a/b"), &parts("a/b/c")), Ok("c".to_string()));
    assert_eq!(entry_name(&parts("a/b"), &parts("a/b")), Ok(String::new()));
    assert_eq!(entry_name(&parts(""), &parts("x/y")), Ok("x/y".to_string()));
    assert_eq!(entry_name(&parts(""), &parts("")), Ok(String::new()));
}

#[test]
fn entry_name_keeps_text_beyond_ascii() {
    assert_eq!(
        entry_name(&parts("r"), &parts("r/\u{4e2d}\u{6587}/\u{1f600}.txt")),
        Ok("\u{4e2d}\u{6587}/\u{1f600}.txt".to_string())
    );
}

#[test]
fn entry_name_matches_whole_components() {
    assert_eq!(
        entry_name(&parts("a/b"), &parts("a/bc/d")),
        Err(ArchiveError::OutsideRoot(b"a/bc/d".to_vec()))
    );
    assert_eq!(entry_name(&parts("a/b"), &parts("a")), Err(ArchiveError::OutsideRoot(b"a".to_vec())));
    assert_eq!(entry_name(&parts("a"), &parts("")), Err(ArchiveError::OutsideRoot(Vec::new())));
    assert!(is_under_root(&parts("a/b"), &parts("a/b/c")));
    assert!(is_under_root(&parts("a/b"), &parts("a/b")));
    assert!(!is_under_root(&parts("a/b"), &parts("a/c/b")));
    assert!(!is_under_root(&parts("a/b/c"), &parts("a/b")));
}

#[test]
fn entry_name_rejects_what_is_no_text() {
    let root = parts("r");
    let overlong = vec![b"r".to_vec(), vec![0xc0, 0xaf]];
    assert_eq!(entry_name(&root, &overlong), Err(ArchiveError::NonUtf8Path(vec![0xc0, 0xaf])));
    let surrogate = vec![b"r".to_vec(), b"ok".to_vec(), vec![0xed, 0xa0, 0x80]];
    assert_eq!(
        entry_name(&root, &surrogate),
        Err(ArchiveError::NonUtf8Path(vec![0x6f, 0x6b, 0x2f, 0xed, 0xa0, 0x80]))
    );
    let truncated = vec![b"r".to_vec(), vec![0xe4, 0xb8]];
    assert_eq!(entry_name(&root, &truncated), Err(ArchiveError::NonUtf8Path(vec![0xe4, 0xb8])));
    let split = vec![b"r".to_vec(), vec![0xe4, 0xb8], vec![0xad]];
    assert_eq!(
        entry_name(&root, &split),
        Err(ArchiveError::NonUtf8Path(vec![0xe4, 0xb8, 0x2f, 0xad]))
    );
}

#[test]
fn non_utf8_root_does_not_matter_below_it() {
    let root = vec![vec![0xff, 0xfe]];
    let path = vec![vec![0xff, 0xfe], b"fine.txt".to_vec()];
    assert_eq!(entry_name(&root, &path), Ok("fine.txt".to_string()));
}

#[test]
fn joining_puts_separators_between_components() {
    assert_eq!(join_from(&parts("a/b/c"), 0), b"a/b/c".to_vec());
    assert_eq!(join_from(&parts("a/b/c"), 1), b"b/c".to_vec());
    assert_eq!(join_from(&parts("a/b/c"), 2), b"c".to_vec());
    assert_eq!(join_from(&parts("a/b/c"), 3), Vec::<u8>::new());
    assert_eq!(join_from(&vec![Vec::new(), Vec::new()], 0), b"/".to_vec());
    assert_eq!(join_from(&vec![b"a".to_vec(), Vec::new()], 0), b"a/".to_vec());
}

#[test]
fn byte_strings_compare_by_content() {
    assert!(same_bytes(&b"abc".to_vec(), &b"abc".to_vec()));
    assert!(same_bytes(&Vec::new(), &Vec::new()));
    assert!(!same_bytes(&b"abc".to_vec(), &b"abd".to_vec()));
    assert!(!same_bytes(&b"abc".to_vec(), &b"ab".to_vec()));
    assert!(!same_bytes(&b"ab".to_vec(), &b"abc".to_vec()));
}

#[test]
fn nodes_become_files_directories_or_nothing() {
    let root = parts("top");
    assert_eq!(
        plan_node(&root, &parts("top/f.txt"), true),
        Ok(NodePlan::File { name: "f.txt".to_string() })
    );
    assert_eq!(
        plan_node(&root, &parts("top/d"), false),
        Ok(NodePlan::Directory { name: "d".to_string() })
    );
    assert_eq!(plan_node(&root, &parts("top"), false), Ok(NodePlan::Skip));
    assert_eq!(plan_node(&root, &parts("top"), true), Ok(NodePlan::File { name: String::new() }));
    assert_eq!(
        plan_node(&root, &parts("other"), false),
        Err(ArchiveError::OutsideRoot(b"other".to_vec()))
    );
    assert_eq!(
        plan_node(&root, &vec![b"top".to_vec(), vec![0x80]], false),
        Err(ArchiveError::NonUtf8Path(vec![0x80]))
    );
}

#[test]
fn names_at_the_limit_of_the_format() {
    let root = parts("r");
    let name = "a".repeat(65535);
    let path = vec![b"r".to_vec(), name.clone().into_bytes()];
    assert_eq!(plan_node(&root, &path, true), Ok(NodePlan::File { name: name.clone() }));
    assert_eq!(plan_node(&root, &path, false), Err(ArchiveError::NameTooLong(name)));
    let marked = "a".repeat(65534) + "\\";
    let path = vec![b"r".to_vec(), marked.clone().into_bytes()];
    assert_eq!(plan_node(&root, &path, false), Ok(NodePlan::Directory { name: marked }));
    let over = "a".repeat(65536);
    let path = vec![b"r".to_vec(), over.clone().into_bytes()];
    assert_eq!(plan_node(&root, &path, true), Err(ArchiveError::NameTooLong(over)));
}

#[test]
fn reads_fill_the_front_of_the_buffer() {
    let data = [1u8, 2, 3, 4, 5];
    let mut source = ByteSource::new(&data);
    let mut buffer = vec![9u8; 3];
    assert_eq!(source.read(&mut buffer), 3);
    assert_eq!(buffer, vec![1, 2, 3]);
    assert_eq!(source.read(&mut buffer), 2);
    assert_eq!(buffer, vec![4, 5, 3]);
    assert_eq!(source.read(&mut buffer), 0);
    assert_eq!(buffer, vec![4, 5, 3]);
    let mut none: Vec<u8> = Vec::new();
    let mut fresh = ByteSource::new(&data);
    assert_eq!(fresh.read(&mut none), 0);
}

#[test]
fn short_reads_are_taken_as_they_come() {
    let data: Vec<u8> = (0..1000u32).map(|i| (i % 251) as u8).collect();
    for chunk in [1usize, 7, 64, 4096] {
        for burst in [1usize, 3, 64, 5000] {
            let mut source = ByteSource::in_bursts(&data, burst);
            let mut out = vec![0x55u8];
            stream_from(&mut source, chunk, &mut out);
            assert_eq!(out[0], 0x55);
            assert_eq!(&out[1..], &data[..]);
        }
    }
}

#[test]
fn bursts_limit_what_a_read_brings() {
    let data = [1u8, 2, 3, 4, 5];
    let mut source = ByteSource::in_bursts(&data, 2);
    let mut buffer = vec![7u8; 4];
    assert_eq!(source.read(&mut buffer), 2);
    assert_eq!(buffer, vec![1, 2, 7, 7]);
    assert_eq!(source.read(&mut buffer), 2);
    assert_eq!(buffer, vec![3, 4, 7, 7]);
    assert_eq!(source.read(&mut buffer), 1);
    assert_eq!(buffer, vec![5, 4, 7, 7]);
    assert_eq!(source.read(&mut buffer), 0);
    let mut slow = ByteSource::in_bursts(&data, 0);
    assert_eq!(slow.read(&mut buffer), 1);
    assert_eq!(buffer, vec![1, 4, 7, 7]);
}

#[test]
fn streaming_from_a_source_starts_where_it_stands() {
    let data = [1u8, 2, 3, 4, 5, 6];
    let mut source = ByteSource::new(&data);
    let mut buffer = vec![0u8; 2];
    assert_eq!(source.read(&mut buffer), 2);
    let mut out = Vec::new();
    stream_from(&mut source, 4, &mut out);
    assert_eq!(out, vec![3, 4, 5, 6]);
    let mut again = Vec::new();
    stream_from(&mut source, 4, &mut again);
    assert_eq!(again, Vec::<u8>::new());
}

#[test]
fn streaming_copies_every_byte_once() {
    let data: Vec<u8> = (0..=255u8).collect();
    for chunk in [1usize, 2, 3, 16, 255, 256, 257, 65536] {
        let mut out = vec![0xaau8];
        stream_chunks(&data, chunk, &mut out);
        let mut expected = vec![0xaau8];
        expected.extend_from_slice(&data);
        assert_eq!(out, expected);
    }
    let mut out = vec![1u8];
    stream_chunks(&data, 0, &mut out);
    assert_eq!(out, vec![1u8]);
    let mut out = Vec::new();
    stream_chunks(&[], 8, &mut out);
    assert_eq!(out, Vec::<u8>::new());
}

#[test]
fn commands_hold_what_was_parsed() {
    let args = Args {
        commands: Commands::Zip {
            src: std::path::PathBuf::from("in"),
            dst: std::path::PathBuf::from("out.zip"),
            method: 1,
            mode: Some(0o644),
            chunk: 4096,
            password: None,
        },
    };
    match args.commands {
        Commands::Zip { src, dst, method, mode, chunk, password } => {
            assert_eq!(src, std::path::PathBuf::from("in"));
            assert_eq!(dst, std::path::PathBuf::from("out.zip"));
            assert_eq!(method, 1);
            assert_eq!(mode, Some(0o644));
            assert_eq!(chunk, 4096);
            assert_eq!(password, None);
        }
        Commands::Unzip { .. } => panic!("wrong command"),
    }
    let unzip = Commands::Unzip { archive: std::path::PathBuf::from("a.zip"), output_dir: None };
    assert!(matches!(unzip, Commands::Unzip { output_dir: None, .. }));
}
