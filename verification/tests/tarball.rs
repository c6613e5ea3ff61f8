use cargo_deb::deb::tarball::Tarball;
use std::io::{Cursor, Read};
use tar::{Archive, EntryType};

struct ExpectedEntry<'a> {
    path: &'a str,
    entry_type: EntryType,
    mode: u32,
    check: Option<Box<dyn Fn(&mut tar::Entry<Cursor<Vec<u8>>>) + 'a>>,
}

impl<'a> ExpectedEntry<'a> {
    fn with_check<F>(mut self, check: F) -> Self
        where F: Fn(&mut tar::Entry<Cursor<Vec<u8>>>) + 'a
    {
        self.check = Some(Box::new(check));
        self
    }
}

fn expected_entry(path: &str, entry_type: EntryType, mode: u32) -> ExpectedEntry<'_> {
    ExpectedEntry { path, entry_type, mode, check: None }
}

fn check_tarball_content(tarball: Vec<u8>, expected_entries: &[ExpectedEntry]) {
    let cursor = Cursor::new(tarball);
    let mut archive = Archive::new(cursor);
    let mut entries = archive.entries().unwrap();
    let mut expected_entries = expected_entries.iter();
    loop {
        let (entry_result, expected_entry) = match (entries.next(), expected_entries.next()) {
            (Some(entry_result), Some(expected_entry)) => (entry_result, expected_entry),
            (None, None) => break,
            _ => panic!("mismatched number of entries"),
        };
        let mut entry = entry_result.unwrap();
        let path = entry.path().unwrap().to_string_lossy().to_string();
        let entry_type = entry.header().entry_type();
        let mode = entry.header().mode().unwrap();
        let mtime = entry.header().mtime().unwrap();
        assert_eq!(path.strip_prefix("./").unwrap(), expected_entry.path);
        assert_eq!(entry_type, expected_entry.entry_type);
        assert_eq!(mode, expected_entry.mode);
        assert_eq!(mtime, 1234567890);
        if let Some(check) = &expected_entry.check {
            check(&mut entry);
        }
    }
}

#[test]
fn basic() {
    let buffer = Vec::new();
    let mut tarball = Tarball::new(buffer, 1234567890);
    let file_content = b"Hello, world!";
    tarball.file("test/file.txt", file_content, 0o644).unwrap();
    let script_content = b"#!/bin/bash\necho 'test'";
    tarball.file("usr/bin/script", script_content, 0o755).unwrap();
    tarball.symlink("usr/bin/link", "script").unwrap();

    let buffer = tarball.into_inner().unwrap();
    check_tarball_content(buffer, &[
        expected_entry("test/", EntryType::Directory, 0o755),
        expected_entry("test/file.txt", EntryType::Regular, 0o644).with_check(|entry| {
            let mut content = Vec::new();
            entry.read_to_end(&mut content).unwrap();
            assert_eq!(content, file_content);
        }),
        expected_entry("usr/", EntryType::Directory, 0o755),
        expected_entry("usr/bin/", EntryType::Directory, 0o755),
        expected_entry("usr/bin/script", EntryType::Regular, 0o755).with_check(|entry| {
            let mut content = Vec::new();
            entry.read_to_end(&mut content).unwrap();
            assert_eq!(content, script_content);
        }),
        expected_entry("usr/bin/link", EntryType::Symlink, 0o777).with_check(|entry| {
            let link_name = entry.header().link_name().unwrap().unwrap();
            assert_eq!(link_name.to_string_lossy(), "script");
        }),
    ]);
}

#[test]
fn long_path() {
    let buffer = Vec::new();
    let mut tarball = Tarball::new(buffer, 1234567890);

    tarball.file("a.txt", b"start", 0o644).unwrap();
    let level = "long/";
    let deep_path = level.repeat(25) + "file.txt";
    tarball.file(&deep_path, b"long path", 0o644).unwrap();
    let long_filename = "very_".repeat(25) + "long_filename.txt";
    tarball.file(&long_filename, b"long filename", 0o644).unwrap();
    tarball.file("b.txt", b"end", 0o644).unwrap();
    let buffer = tarball.into_inner().unwrap();

    let mut expected_entries = vec![expected_entry("a.txt", EntryType::Regular, 0o644)];
    expected_entries.extend((1..=25).map(|i| expected_entry(&deep_path[..i * level.len()], EntryType::Directory, 0o755)));
    expected_entries.extend([
        expected_entry(&deep_path, EntryType::Regular, 0o644),
        expected_entry(&long_filename, EntryType::Regular, 0o644),
        expected_entry("b.txt", EntryType::Regular, 0o644),
    ]);
    check_tarball_content(buffer, &expected_entries);
}

/// The header of a file, byte for byte.
#[test]
fn header_bytes_of_a_file() {
    let mut tarball = Tarball::new(Vec::new(), 8);
    tarball.file("x", b"abc", 0o644).unwrap();
    let bytes = tarball.into_inner().unwrap();
    assert_eq!(bytes.len(), 512 + 512 + 1024);
    let mut expected = vec![0u8; 512];
    expected[..3].copy_from_slice(b"./x");
    expected[100..108].copy_from_slice(b"0000644\0");
    expected[124..136].copy_from_slice(b"00000000003\0");
    expected[136..148].copy_from_slice(b"00000000010\0");
    let sum: u32 = expected.iter().map(|&b| u32::from(b)).sum::<u32>() + 8 * 32;
    expected[148..156].copy_from_slice(format!("{sum:07o}\0").as_bytes());
    assert_eq!(&bytes[..512], &expected[..]);
    assert_eq!(&bytes[512..515], b"abc");
    assert!(bytes[515..].iter().all(|&b| b == 0));
}

/// The name of a directory needs room for its slash: one byte less than that of a file.
#[test]
fn names_that_just_fit() {
    for (len, long) in [(95, false), (96, false), (97, true), (98, true)] {
        let dir = "d".repeat(len);
        let mut tarball = Tarball::new(Vec::new(), 0);
        tarball.file(&format!("{dir}/f"), b"", 0o600).unwrap();
        let bytes = tarball.into_inner().unwrap();
        assert_eq!(bytes[156] == b'L', long, "{len}");
        if long {
            assert_eq!(&bytes[..14], b"././@LongLink\0");
            assert_eq!(&bytes[124..136], format!("{:011o}\0", len + 4).as_bytes());
            assert_eq!(&bytes[512..512 + len + 4], format!("./{dir}/\0").as_bytes());
        } else {
            assert_eq!(&bytes[..len + 3], format!("./{dir}/").as_bytes());
        }
    }
    for (len, long) in [(97, false), (98, true)] {
        let file = "f".repeat(len);
        let mut tarball = Tarball::new(Vec::new(), 0);
        tarball.file(&file, b"", 0o600).unwrap();
        let bytes = tarball.into_inner().unwrap();
        assert_eq!(bytes[156] == b'L', long, "{len}");
    }
}

/// A big number has no room in octal digits.
#[test]
fn times_that_are_too_big_for_octal() {
    let mut tarball = Tarball::new(Vec::new(), 0o100000000000);
    tarball.file("x", b"", 0o644).unwrap();
    let bytes = tarball.into_inner().unwrap();
    assert_eq!(&bytes[136..148], &[0x80, 0, 0, 0, 0, 0, 0, 2, 0, 0, 0, 0]);
    let mut tarball = Tarball::new(Vec::new(), 0o77777777777);
    tarball.file("x", b"", 0o644).unwrap();
    let bytes = tarball.into_inner().unwrap();
    assert_eq!(&bytes[136..148], b"77777777777\0");
}

#[test]
fn links_that_do_not_fit() {
    let mut tarball = Tarball::new(Vec::new(), 0);
    assert!(tarball.symlink("a", &"l".repeat(100)).is_ok());
    for link in [String::new(), "l".repeat(101), "a\0b".to_string()] {
        let mut tarball = Tarball::new(Vec::new(), 0);
        assert!(tarball.symlink("a", &link).is_err());
    }
    let mut tarball = Tarball::new(Vec::new(), 0);
    tarball.symlink("a", "//x/./y//").unwrap();
    let bytes = tarball.into_inner().unwrap();
    assert_eq!(&bytes[157..164], b"/x/y/\0\0");
}

/// A directory is not added again under another spelling.
#[test]
fn directories_are_added_once() {
    let mut tarball = Tarball::new(Vec::new(), 1234567890);
    tarball.file("a/b/x", b"", 0o644).unwrap();
    tarball.file("a//b/./y", b"", 0o644).unwrap();
    tarball.file("a/c", b"", 0o644).unwrap();
    let bytes = tarball.into_inner().unwrap();
    let mut archive = Archive::new(Cursor::new(bytes));
    let names: Vec<String> = archive.entries().unwrap().map(|e| String::from_utf8(e.unwrap().path_bytes().to_vec()).unwrap()).collect();
    assert_eq!(names, ["./a/", "./a/b/", "./a/b/x", "./a//b/./y", "./a/c"]);
}

/// Only the directories that are missing are added, the outermost first.
#[test]
fn directories_that_are_missing() {
    let mut tarball = Tarball::new(Vec::new(), 1234567890);
    tarball.file("a/x", b"", 0o644).unwrap();
    tarball.symlink("a/b/c/l", "x").unwrap();
    tarball.file("a/b/c/l2", b"", 0o600).unwrap();
    let bytes = tarball.into_inner().unwrap();
    check_tarball_content(bytes, &[
        expected_entry("a/", EntryType::Directory, 0o755),
        expected_entry("a/x", EntryType::Regular, 0o644),
        expected_entry("a/b/", EntryType::Directory, 0o755),
        expected_entry("a/b/c/", EntryType::Directory, 0o755),
        expected_entry("a/b/c/l", EntryType::Symlink, 0o777),
        expected_entry("a/b/c/l2", EntryType::Regular, 0o600),
    ]);
}

/// Adding the directories above a path again adds none.
#[test]
fn parent_directories_twice() {
    let mut tarball = Tarball::new(Vec::new(), 1234567890);
    tarball.add_parent_directories("a/b/x").unwrap();
    tarball.add_parent_directories("a/b/x").unwrap();
    tarball.add_parent_directories("a/c/x").unwrap();
    let bytes = tarball.into_inner().unwrap();
    check_tarball_content(bytes, &[
        expected_entry("a/", EntryType::Directory, 0o755),
        expected_entry("a/b/", EntryType::Directory, 0o755),
        expected_entry("a/c/", EntryType::Directory, 0o755),
    ]);
}
