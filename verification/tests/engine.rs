use ehdl::downloader::{
    acquire, run_items, AggregateResult, ByteSource, DownloadError, GalleryError, try_truncate,
};
use ehdl::gallery::{Gallery, Image};
use ehdl::pool::{PoolError, PoolState};
use ehdl::progress::Progress;
use ehdl::transfer::{chunked_copy, LocalStore};

fn image(url: &str, file: &str) -> Image {
    let mut img = Image::new(&String::from(url));
    img.set_filename(String::from(file));
    img
}

fn sample_gallery(files: &[&str]) -> Gallery {
    let mut g = Gallery::new();
    g.set_title(String::from("Sample"));
    for f in files {
        g.add_image(image("https://example.test/x", f));
    }
    g
}

#[test]
fn pool_rejects_zero_concurrency() {
    assert!(matches!(PoolState::new(3, 0), Err(PoolError::ZeroConcurrency)));
}

#[test]
fn pool_admission_never_passes_the_cap() {
    let mut pool = PoolState::new(5, 2).unwrap();
    assert!(pool.can_admit());
    let a = pool.start_next();
    let b = pool.start_next();
    assert_eq!(a, 0);
    assert_eq!(b, 1);
    assert_eq!(pool.in_flight(), 2);
    assert!(!pool.can_admit());
    pool.complete(a);
    assert_eq!(pool.in_flight(), 1);
    assert!(pool.can_admit());
    let c = pool.start_next();
    assert_eq!(c, 2);
    assert!(!pool.can_admit());
    pool.complete(c);
    pool.complete(b);
    assert_eq!(pool.in_flight(), 0);
    assert!(!pool.is_done());
    let d = pool.start_next();
    let e = pool.start_next();
    pool.complete(d);
    pool.complete(e);
    assert!(pool.is_done());
}

#[test]
fn pool_cancel_stops_admission() {
    let mut pool = PoolState::new(4, 2).unwrap();
    let a = pool.start_next();
    pool.cancel();
    assert!(!pool.can_admit());
    pool.complete(a);
    assert!(pool.is_done());
}

#[test]
fn chunked_copy_moves_every_byte() {
    let source: Vec<u8> = vec![10, 20, 30, 40, 50];
    let mut sink: Vec<u8> = Vec::new();
    let mut ledger = Progress::new();
    let h = ledger.add_prog(5, "copy");
    let bytes = chunked_copy(&source, 2, &mut sink, &mut ledger, h);
    assert_eq!(bytes, 5);
    assert_eq!(sink, source);
    assert_eq!(ledger.current(h), 5);
    assert_eq!(ledger.total(h), 5);
}

#[test]
fn tracker_total_is_never_exceeded() {
    let mut ledger = Progress::new();
    let h = ledger.add_prog(3, "items");
    ledger.inc(h, 5);
    assert_eq!(ledger.current(h), 3);
    let h2 = ledger.add_prog(3, "steps");
    ledger.inc(h2, 1);
    ledger.inc(h2, 1);
    ledger.inc(h2, 1);
    assert_eq!(ledger.current(h2), 3);
    ledger.inc(h2, 1);
    assert_eq!(ledger.current(h2), 3);
    assert!(!ledger.is_finished(h2));
    ledger.finish(h2);
    assert!(ledger.is_finished(h2));
}

#[test]
fn the_advertisement_sizes_the_tracker_but_never_ends_the_transfer() {
    // The source advertises 10 bytes but delivers 25: the file holds all
    // 25, because only end-of-data ends the loop, and the byte tracker
    // stops at the total it was created with.
    let g = sample_gallery(&["long.bin"]);
    let behaviors = vec![ByteSource::Data { advertised: 10, bytes: vec![1u8; 25] }];
    let mut store = LocalStore::new();
    let mut ledger = Progress::new();
    let results = acquire(&g, &behaviors, 1, 4, &mut store, &mut ledger).unwrap();
    assert_eq!(results[0].bytes_written, 25);
    assert_eq!(store.get_file("Sample/long.bin").unwrap().len(), 25);
    // Tracker 0 is the gallery's; tracker 1 is the item's byte tracker.
    assert_eq!(ledger.total(1), 10);
    assert_eq!(ledger.current(1), 10);
    // An advertisement that overshoots leaves the tracker short, never
    // past its total.
    let g2 = sample_gallery(&["short.bin"]);
    let behaviors2 = vec![ByteSource::Data { advertised: 100, bytes: vec![2u8; 5] }];
    let mut store2 = LocalStore::new();
    let mut ledger2 = Progress::new();
    let results2 = acquire(&g2, &behaviors2, 1, 4, &mut store2, &mut ledger2).unwrap();
    assert_eq!(results2[0].bytes_written, 5);
    assert_eq!(ledger2.total(1), 100);
    assert_eq!(ledger2.current(1), 5);
}

#[test]
fn sample_plan_downloads_every_item() {
    // Three sources of 0, 1500 and 4096 bytes, moved in 1024-byte chunks.
    let g = sample_gallery(&["a.bin", "b.bin", "c.bin"]);
    let behaviors = vec![
        ByteSource::Data { advertised: 0, bytes: Vec::new() },
        ByteSource::Data { advertised: 1500, bytes: vec![7u8; 1500] },
        ByteSource::Data { advertised: 4096, bytes: vec![9u8; 4096] },
    ];
    let mut store = LocalStore::new();
    let mut ledger = Progress::new();
    let results = acquire(&g, &behaviors, 2, 1024, &mut store, &mut ledger).unwrap();
    assert_eq!(results.len(), 3);
    assert_eq!(results[0].bytes_written, 0);
    assert_eq!(results[1].bytes_written, 1500);
    assert_eq!(results[2].bytes_written, 4096);
    assert_eq!(results[0].local_path, "Sample/a.bin");
    assert_eq!(store.get_file("Sample/a.bin").unwrap().len(), 0);
    assert_eq!(store.get_file("Sample/b.bin").unwrap().len(), 1500);
    assert_eq!(store.get_file("Sample/c.bin").unwrap().len(), 4096);
    assert_eq!(store.get_file("Sample/b.bin").unwrap()[0], 7);
    // The gallery tracker was created first, sized to the item count, and
    // ran to completion.
    assert_eq!(ledger.total(0), 3);
    assert_eq!(ledger.current(0), 3);
    assert!(ledger.is_finished(0));
    assert_eq!(ledger.label(0), "Downloading images");
}

#[test]
fn one_existing_sink_fails_only_that_item() {
    let g = sample_gallery(&["a.bin", "b.bin", "c.bin"]);
    let behaviors = vec![
        ByteSource::Data { advertised: 10, bytes: vec![1u8; 10] },
        ByteSource::Data { advertised: 10, bytes: vec![2u8; 10] },
        ByteSource::Data { advertised: 10, bytes: vec![3u8; 10] },
    ];
    let mut store = LocalStore::new();
    store.insert_file(String::from("Sample/b.bin"), vec![0u8; 4]);
    let mut ledger = Progress::new();
    let root = String::from("Sample");
    let g_h = ledger.add_prog(3, "Downloading images");
    let images: Vec<Image> = vec![
        image("u", "a.bin"),
        image("u", "b.bin"),
        image("u", "c.bin"),
    ];
    let agg: AggregateResult =
        run_items(&images, &behaviors, 2, 4, &root, &mut store, &mut ledger, g_h).unwrap();
    assert_eq!(agg.successes.len(), 2);
    assert_eq!(agg.failures.len(), 1);
    assert_eq!(agg.pending.len(), 0);
    assert_eq!(agg.failures[0].index, 1);
    assert!(matches!(agg.failures[0].error, DownloadError::FileSystemError(_)));
    // The pre-existing file is untouched.
    assert_eq!(store.get_file("Sample/b.bin").unwrap().len(), 4);
    // The coordinator turns the same plan into a gallery-level failure
    // naming that one item.
    let mut store2 = LocalStore::new();
    store2.insert_file(String::from("Sample/b.bin"), vec![0u8; 4]);
    let mut ledger2 = Progress::new();
    match acquire(&g, &behaviors, 2, 4, &mut store2, &mut ledger2) {
        Err(GalleryError::Items(failures, pending)) => {
            assert_eq!(failures.len(), 1);
            assert_eq!(failures[0].index, 1);
            assert!(matches!(failures[0].error, DownloadError::FileSystemError(_)));
            assert!(pending.is_empty());
        }
        _ => panic!("expected a gallery-level failure listing the item"),
    }
}

#[test]
fn silent_source_leaves_only_that_item_pending() {
    // Five descriptors under a cap of two; the third never responds.
    let behaviors = vec![
        ByteSource::Data { advertised: 8, bytes: vec![1u8; 8] },
        ByteSource::Data { advertised: 8, bytes: vec![2u8; 8] },
        ByteSource::Silent,
        ByteSource::Data { advertised: 8, bytes: vec![4u8; 8] },
        ByteSource::Data { advertised: 8, bytes: vec![5u8; 8] },
    ];
    let images: Vec<Image> = vec![
        image("u", "p1.bin"),
        image("u", "p2.bin"),
        image("u", "p3.bin"),
        image("u", "p4.bin"),
        image("u", "p5.bin"),
    ];
    let mut store = LocalStore::new();
    let mut ledger = Progress::new();
    let root = String::from("g");
    let g_h = ledger.add_prog(5, "Downloading images");
    let agg = run_items(&images, &behaviors, 2, 4, &root, &mut store, &mut ledger, g_h).unwrap();
    assert_eq!(agg.successes.len(), 4);
    assert_eq!(agg.failures.len(), 0);
    assert_eq!(agg.pending, vec![2]);
    assert!(store.get_file("g/p1.bin").is_some());
    assert!(store.get_file("g/p2.bin").is_some());
    assert!(store.get_file("g/p3.bin").is_none());
    assert!(store.get_file("g/p4.bin").is_some());
    assert!(store.get_file("g/p5.bin").is_some());
    assert_eq!(ledger.current(g_h), 4);
}

#[test]
fn unreachable_source_is_a_network_failure() {
    let g = sample_gallery(&["a.bin"]);
    let behaviors = vec![ByteSource::Unreachable(String::from("connection refused"))];
    let mut store = LocalStore::new();
    let mut ledger = Progress::new();
    match acquire(&g, &behaviors, 1, 16, &mut store, &mut ledger) {
        Err(GalleryError::Items(failures, pending)) => {
            assert_eq!(failures.len(), 1);
            assert_eq!(failures[0].index, 0);
            match &failures[0].error {
                DownloadError::NetworkError(cause) => assert_eq!(cause, "connection refused"),
                _ => panic!("expected the network failure to carry its cause"),
            }
            assert!(pending.is_empty());
        }
        _ => panic!("expected a gallery-level failure"),
    }
    assert!(store.get_file("Sample/a.bin").is_none());
}

#[test]
fn broken_stream_leaves_the_partial_file() {
    let g = sample_gallery(&["a.bin"]);
    let behaviors = vec![ByteSource::Broken(vec![5u8; 6], String::from("connection reset"))];
    let mut store = LocalStore::new();
    let mut ledger = Progress::new();
    match acquire(&g, &behaviors, 1, 4, &mut store, &mut ledger) {
        Err(GalleryError::Items(failures, _)) => {
            assert_eq!(failures.len(), 1);
            match &failures[0].error {
                DownloadError::ChunkError(cause) => assert_eq!(cause, "connection reset"),
                _ => panic!("expected the stream failure to carry its cause"),
            }
        }
        _ => panic!("expected a gallery-level failure"),
    }
    // The delivered prefix stays on disk; removing it is the caller's call.
    assert_eq!(store.get_file("Sample/a.bin").unwrap().len(), 6);
}

#[test]
fn zero_concurrency_is_rejected_up_front() {
    let g = sample_gallery(&["a.bin"]);
    let behaviors = vec![ByteSource::Data { advertised: 4, bytes: vec![1u8; 4] }];
    let mut store = LocalStore::new();
    let mut ledger = Progress::new();
    assert!(matches!(
        acquire(&g, &behaviors, 0, 16, &mut store, &mut ledger),
        Err(GalleryError::InvalidConcurrency)
    ));
}

#[test]
fn existing_root_directory_is_fatal() {
    let g = sample_gallery(&["a.bin"]);
    let behaviors = vec![ByteSource::Data { advertised: 4, bytes: vec![1u8; 4] }];
    let mut store = LocalStore::new();
    store.insert_dir(String::from("Sample"));
    let mut ledger = Progress::new();
    match acquire(&g, &behaviors, 1, 16, &mut store, &mut ledger) {
        Err(GalleryError::Setup(e)) => {
            assert!(matches!(e, DownloadError::FileSystemError(_)));
        }
        _ => panic!("expected a setup failure"),
    }
}

#[test]
fn duplicate_local_names_fail_the_later_item() {
    let g = sample_gallery(&["same.bin", "same.bin"]);
    let behaviors = vec![ByteSource::Data { advertised: 4, bytes: vec![1u8; 4] }, ByteSource::Data { advertised: 4, bytes: vec![2u8; 4] }];
    let mut store = LocalStore::new();
    let mut ledger = Progress::new();
    match acquire(&g, &behaviors, 1, 16, &mut store, &mut ledger) {
        Err(GalleryError::Items(failures, _)) => {
            assert_eq!(failures.len(), 1);
            assert_eq!(failures[0].index, 1);
            assert!(matches!(failures[0].error, DownloadError::FileSystemError(_)));
        }
        _ => panic!("expected a gallery-level failure"),
    }
    // The first item's bytes won.
    assert_eq!(store.get_file("Sample/same.bin").unwrap()[0], 1);
}

#[test]
fn an_empty_plan_returns_an_empty_aggregate() {
    let images: Vec<Image> = Vec::new();
    let behaviors: Vec<ByteSource> = Vec::new();
    let mut store = LocalStore::new();
    let mut ledger = Progress::new();
    let root = String::from("Empty");
    let g_h = ledger.add_prog(0, "Downloading images");
    let agg = run_items(&images, &behaviors, 3, 8, &root, &mut store, &mut ledger, g_h).unwrap();
    assert!(agg.successes.is_empty());
    assert!(agg.failures.is_empty());
    assert!(agg.pending.is_empty());
    assert_eq!(store.file_count(), 0);
    // The coordinator succeeds with no results and a completed tracker.
    let g = sample_gallery(&[]);
    let mut store2 = LocalStore::new();
    let mut ledger2 = Progress::new();
    let results = acquire(&g, &behaviors, 3, 8, &mut store2, &mut ledger2).unwrap();
    assert!(results.is_empty());
    assert_eq!(ledger2.total(0), 0);
    assert_eq!(ledger2.current(0), 0);
    assert!(ledger2.is_finished(0));
}

#[test]
fn error_lines_read_as_documented() {
    let e = DownloadError::NetworkError(String::from("source unreachable"));
    assert_eq!(e.describe(), "error while performing request: source unreachable");
    let f = DownloadError::ChunkError(String::from("stream ended unexpectedly"));
    assert_eq!(f.describe(), "error while awaiting next chunk: stream ended unexpectedly");
    let g = DownloadError::AddDirError(String::from("denied"));
    assert_eq!(g.describe(), "error while creating directory: denied");
}

#[test]
fn long_names_are_truncated_for_labels() {
    assert_eq!(try_truncate(&String::from("short.png")), "short.png");
    assert_eq!(try_truncate(&String::from("exactly_16_chars")), "exactly_16_ch");
    assert_eq!(try_truncate(&String::from("a_very_long_file_name.png")), "a_very_long_f");
}
