use adbfs::cache::MetadataCache;
use adbfs::parse::FileMeta;
use adbfs::time::{FileTime, Span};
use std::time::{Duration, Instant};

fn dummy_meta() -> FileMeta {
    FileMeta {
        mode: 0o100644,
        nlink: 1,
        uid: 0,
        gid: 0,
        size: 42,
        rdev: 0,
        mtime: FileTime { secs: 0, nanos: 0 },
        raw_line: String::new(),
    }
}

#[test]
fn get_returns_none_for_missing() {
    let mut cache = MetadataCache::new(Span::from_secs(30));
    assert!(cache.get("/nonexistent").is_none());
}

#[test]
fn insert_then_get() {
    let mut cache = MetadataCache::new(Span::from_secs(30));
    let meta = dummy_meta();
    cache.insert("/sdcard/file.txt".to_owned(), Some(meta.clone()));

    let got = cache
        .get("/sdcard/file.txt")
        .expect("should be present")
        .expect("should be positive");
    assert_eq!(got.size, meta.size);
    assert_eq!(got.mode, meta.mode);
}

#[test]
fn negative_cache_hit() {
    let mut cache = MetadataCache::new(Span::from_secs(30));
    cache.insert("/sdcard/missing".to_owned(), None);

    let result = cache.get("/sdcard/missing");
    assert!(matches!(result, Some(None)));
}

#[test]
fn expired_entry_returns_none() {
    let mut cache = MetadataCache::new(Span { secs: 0, nanos: 50_000_000 });
    cache.insert("/tmp/ephemeral".to_owned(), Some(dummy_meta()));

    let start = Instant::now();
    while start.elapsed() < Duration::from_millis(100) {
        std::hint::spin_loop();
    }

    assert!(cache.get("/tmp/ephemeral").is_none());
}

#[test]
fn an_entry_is_as_old_as_the_clock_says() {
    let mut cache = MetadataCache::new(Span::from_secs(30));
    let put_in = Instant::now();
    cache.insert_at("/a".to_owned(), None, put_in);
    assert!(cache.get_at("/a", put_in).is_some());
    assert!(cache.get_at("/a", put_in + Duration::from_secs(30)).is_some());
    assert!(cache.get_at("/a", put_in + Duration::from_millis(30_001)).is_none());
    assert!(cache.get_at("/a", put_in).is_none());
}

#[test]
fn invalidate_removes_entry() {
    let mut cache = MetadataCache::new(Span::from_secs(30));
    cache.insert("/sdcard/remove_me".to_owned(), Some(dummy_meta()));

    cache.invalidate("/sdcard/remove_me");
    assert!(cache.get("/sdcard/remove_me").is_none());
}

#[test]
fn invalidate_prefix_removes_children() {
    let mut cache = MetadataCache::new(Span::from_secs(30));
    cache.insert("/sdcard".to_owned(), Some(dummy_meta()));
    cache.insert("/sdcard/a".to_owned(), Some(dummy_meta()));
    cache.insert("/sdcard/b".to_owned(), Some(dummy_meta()));
    cache.insert("/other".to_owned(), Some(dummy_meta()));

    cache.invalidate_prefix("/sdcard");

    assert!(cache.get("/sdcard").is_none());
    assert!(cache.get("/sdcard/a").is_none());
    assert!(cache.get("/sdcard/b").is_none());
    assert!(cache.get("/other").is_some());
}

#[test]
fn invalidate_prefix_keeps_siblings_sharing_the_prefix() {
    let mut cache = MetadataCache::new(Span::from_secs(30));
    cache.insert("/sdcard/a".to_owned(), Some(dummy_meta()));
    cache.insert("/sdcardfoo".to_owned(), Some(dummy_meta()));
    cache.insert("/sdcard2/b".to_owned(), Some(dummy_meta()));

    cache.invalidate_prefix("/sdcard");

    assert!(cache.get("/sdcard/a").is_none());
    assert!(cache.get("/sdcardfoo").is_some());
    assert!(cache.get("/sdcard2/b").is_some());
}

#[test]
fn invalidate_prefix_root_clears_everything() {
    let mut cache = MetadataCache::new(Span::from_secs(30));
    cache.insert("/".to_owned(), Some(dummy_meta()));
    cache.insert("/sdcard/a".to_owned(), Some(dummy_meta()));

    cache.invalidate_prefix("/");

    assert!(cache.get("/").is_none());
    assert!(cache.get("/sdcard/a").is_none());
}

/// An entry counts up to the limit and not beyond it.
#[test]
fn entry_counts_up_to_the_limit() {
    let mut cache = MetadataCache::new(Span { secs: 2, nanos: 500 });
    cache.insert("/a".to_owned(), Some(dummy_meta()));
    assert!(cache.get_aged("/a", Span { secs: 2, nanos: 499 }).is_some());
    assert!(cache.get_aged("/a", Span { secs: 2, nanos: 500 }).is_some());
    assert!(cache.get_aged("/a", Span { secs: 2, nanos: 501 }).is_none());
    // It is gone, however young the next read takes it to be.
    assert!(cache.get_aged("/a", Span { secs: 0, nanos: 0 }).is_none());
}

#[test]
fn an_entry_without_a_lifetime_is_not_found() {
    let mut cache = MetadataCache::new(Span { secs: 0, nanos: 0 });
    cache.insert("/a".to_owned(), None);
    assert!(cache.get_aged("/a", Span { secs: 0, nanos: 1 }).is_none());
}

#[test]
fn a_write_replaces_what_was_known_and_nothing_else() {
    let mut cache = MetadataCache::new(Span::from_secs(30));
    cache.insert("/a".to_owned(), None);
    cache.insert("/b".to_owned(), None);
    cache.insert("/a".to_owned(), Some(dummy_meta()));
    assert_eq!(cache.get("/a").unwrap().unwrap().size, 42);
    assert!(matches!(cache.get("/b"), Some(None)));
}

#[test]
fn a_trailing_slash_names_what_is_below() {
    let mut cache = MetadataCache::new(Span::from_secs(30));
    cache.insert("/sdcard".to_owned(), None);
    cache.insert("/sdcard/".to_owned(), None);
    cache.insert("/sdcard/a".to_owned(), None);
    cache.invalidate_prefix("/sdcard/");
    assert!(cache.get("/sdcard").is_some());
    assert!(cache.get("/sdcard/").is_none());
    assert!(cache.get("/sdcard/a").is_none());
}
