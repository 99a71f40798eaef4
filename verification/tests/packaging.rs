use std::io::Read;

use ehdl::archive::{member_path, package, Archive, ArchiveEntry, ZipError};
use ehdl::downloader::{download_gallery, ByteSource};
use ehdl::gallery::{Gallery, Image};
use ehdl::progress::Progress;
use ehdl::sanitize::sanitize_title;
use ehdl::transfer::LocalStore;

#[test]
fn member_paths_lose_dot_segments_and_forbidden_characters() {
    assert_eq!(member_path("./a/b"), "a/b");
    assert_eq!(member_path("a\\b"), "a_b");
    assert_eq!(member_path("a/../b"), "a/../b");
    assert_eq!(member_path("./."), "");
    assert_eq!(member_path("dir/file:1?.png"), "dir/file_1_.png");
    assert_eq!(member_path("a//b"), "a/b");
    assert_eq!(member_path("/a"), "a");
}

#[test]
fn sanitize_replaces_every_blocked_character() {
    assert_eq!(sanitize_title("a/b"), "a_b");
    assert_eq!(sanitize_title("a#b%c&d"), "a_b_c_d");
    assert_eq!(sanitize_title("plain name.png"), "plain name.png");
    assert_eq!(sanitize_title(""), "");
    assert_eq!(sanitize_title("\"quoted\"|piped?"), "_quoted__piped_");
}

#[test]
fn archive_round_trip_keeps_names_and_bytes() {
    let mut store = LocalStore::new();
    store.insert_file(String::from("g/one.bin"), vec![1u8, 2, 3, 4, 5]);
    store.insert_file(String::from("g/two.bin"), vec![9u8; 3000]);
    let entries = vec![
        ArchiveEntry::DirectoryEntry { archive_path: String::from("g") },
        ArchiveEntry::FileEntry {
            source_path: String::from("g/one.bin"),
            archive_path: String::from("./g/one.bin"),
        },
        ArchiveEntry::FileEntry {
            source_path: String::from("g/two.bin"),
            archive_path: String::from("g/two.bin"),
        },
    ];
    let (bytes, total) = package(&entries, &store, 1024).unwrap();
    assert_eq!(total, 3005);
    let mut arch = zip::ZipArchive::new(std::io::Cursor::new(bytes)).unwrap();
    let names: Vec<String> = (0..arch.len()).map(|i| arch.by_index(i).unwrap().name().to_string()).collect();
    assert!(names.contains(&String::from("g/")));
    assert!(names.contains(&String::from("g/one.bin")));
    assert!(names.contains(&String::from("g/two.bin")));
    let mut one = Vec::new();
    arch.by_name("g/one.bin").unwrap().read_to_end(&mut one).unwrap();
    assert_eq!(one, vec![1u8, 2, 3, 4, 5]);
    let mut two = Vec::new();
    arch.by_name("g/two.bin").unwrap().read_to_end(&mut two).unwrap();
    assert_eq!(two, vec![9u8; 3000]);
}

#[test]
fn missing_source_file_is_fatal_for_the_archive() {
    let store = LocalStore::new();
    let entries = vec![ArchiveEntry::FileEntry {
        source_path: String::from("nowhere.bin"),
        archive_path: String::from("nowhere.bin"),
    }];
    match package(&entries, &store, 64) {
        Err(ZipError::ReadError(_)) => {}
        _ => panic!("expected a read failure"),
    }
}

#[test]
fn empty_member_paths_add_nothing() {
    let mut store = LocalStore::new();
    store.insert_file(String::from("x"), vec![1u8, 2]);
    let arch = Archive::new();
    let (arch, written) = arch.add_file(".", store.get_file("x").unwrap(), 16).unwrap();
    assert_eq!(written, 0);
    let arch = arch.add_directory("./.").unwrap();
    let (bytes, total) = arch.finish().unwrap();
    assert_eq!(total, 0);
    let arch = zip::ZipArchive::new(std::io::Cursor::new(bytes)).unwrap();
    assert_eq!(arch.len(), 0);
}

#[test]
fn zip_error_lines_read_as_documented() {
    let e = ZipError::ReadError(String::from("missing source file"));
    assert_eq!(e.describe(), "error while reading file: missing source file");
    let f = ZipError::StartFileError(String::from("bad name"));
    assert_eq!(f.describe(), "error while compressing file: bad name");
    let nested = ehdl::downloader::DownloadError::ZipError(ZipError::ReadError(String::from("x")));
    assert_eq!(
        nested.describe(),
        "error while zipping content: error while reading file: x"
    );
}

#[test]
fn download_gallery_packages_what_it_downloaded() {
    let mut g = Gallery::new();
    g.set_title(String::from("Pack"));
    let mut a = Image::new(&String::from("u1"));
    a.set_filename(String::from("a.bin"));
    g.add_image(a);
    let mut b = Image::new(&String::from("u2"));
    b.set_filename(String::from("b.bin"));
    g.add_image(b);
    let behaviors = vec![ByteSource::Data { advertised: 700, bytes: vec![1u8; 700] }, ByteSource::Data { advertised: 44, bytes: vec![2u8; 44] }];
    let mut store = LocalStore::new();
    let mut ledger = Progress::new();
    let (results, packed) =
        download_gallery(&g, &behaviors, 2, 256, true, &mut store, &mut ledger).unwrap();
    assert_eq!(results.len(), 2);
    let (bytes, total) = packed.unwrap();
    assert_eq!(total, 744);
    let mut arch = zip::ZipArchive::new(std::io::Cursor::new(bytes)).unwrap();
    let mut a_bytes = Vec::new();
    arch.by_name("Pack/a.bin").unwrap().read_to_end(&mut a_bytes).unwrap();
    assert_eq!(a_bytes, vec![1u8; 700]);
    let mut b_bytes = Vec::new();
    arch.by_name("Pack/b.bin").unwrap().read_to_end(&mut b_bytes).unwrap();
    assert_eq!(b_bytes, vec![2u8; 44]);
    assert!(arch.by_name("Pack/").is_ok());
}

#[test]
fn download_gallery_without_archiving_returns_no_container() {
    let mut g = Gallery::new();
    g.set_title(String::from("Plain"));
    let mut a = Image::new(&String::from("u1"));
    a.set_filename(String::from("a.bin"));
    g.add_image(a);
    let behaviors = vec![ByteSource::Data { advertised: 10, bytes: vec![3u8; 10] }];
    let mut store = LocalStore::new();
    let mut ledger = Progress::new();
    let (results, packed) =
        download_gallery(&g, &behaviors, 1, 4, false, &mut store, &mut ledger).unwrap();
    assert_eq!(results.len(), 1);
    assert!(packed.is_none());
}
