use base64::Engine;
use data_encoding::BASE32;
use reddw_core::cache::{CacheDir, CacheFile, content_type_subtype, find_cached, get_wallpaper, is_recognized_image, make_filename};
use reddw_core::hashing::hash_url;
use reddw_core::HostError;

fn file(name: &str, len: u64, age: i64) -> CacheFile {
    CacheFile { name: name.to_string(), len, age }
}

const MIB: u64 = 1024 * 1024;

#[test]
fn hash_url_matches_the_digest_pipeline() {
    // The SHA-256 digest of the empty string, as every tool prints it.
    let empty_digest = "e3b0c44298fc1c149afbf4c8996fb92427ae41e4649b934ca495991b7852b855";
    let expected: String = BASE32.encode(empty_digest.as_bytes()).chars().take(7).collect();
    assert_eq!(hash_url(""), expected);
    assert_eq!(sha256::digest(""), empty_digest);
}

#[test]
fn hash_url_is_short_and_deterministic() {
    let a = hash_url("http://img.example/one.png");
    let b = hash_url("http://img.example/one.png");
    let c = hash_url("http://img.example/two.png");
    assert_eq!(a.len(), 7);
    assert_eq!(a, b);
    assert_ne!(a, c);
    // Base32 output: upper-case letters and the digits 2 through 7.
    assert!(a.chars().all(|ch| ch.is_ascii_uppercase() || ('2'..='7').contains(&ch)));
}

#[test]
fn make_filename_uses_content_type_subtype() {
    let name = make_filename("http://img.example/one", "image/png").unwrap();
    assert_eq!(name, format!("{}.png", hash_url("http://img.example/one")));
}

#[test]
fn make_filename_rejects_unusable_content_type() {
    assert_eq!(
        make_filename("http://img.example/one", "not a mime type"),
        Err(HostError::Network)
    );
}

#[test]
fn content_type_subtype_parses_headers() {
    assert_eq!(content_type_subtype("image/jpeg"), Some("jpeg".to_string()));
    assert_eq!(content_type_subtype("no-slash-here"), None);
}

#[test]
fn image_recognition_goes_by_extension() {
    assert!(is_recognized_image("wallpaper.png"));
    assert!(is_recognized_image("wallpaper.jpg"));
    assert!(!is_recognized_image("notes.txt"));
}

#[test]
fn find_cached_matches_by_id_prefix() {
    let files = vec![
        file("other.txt", 10, 1),
        file("ABCDEFG.png", 10, 2),
    ];
    assert_eq!(find_cached(&files, "ABCDEFG"), Some(1));
    assert_eq!(find_cached(&files, "ZZZZZZZ"), None);
}

#[test]
fn eviction_clears_oldest_images_until_the_download_fits() {
    // Cache at 99 MiB of a 100 MiB budget; a 5 MiB download must evict
    // the oldest recognized image, after which it fits.
    let dir = CacheDir::new(vec![
        file("old.jpg", 50 * MIB, 1),
        file("new.png", 49 * MIB, 2),
    ]);
    let plan = dir.plan_eviction(100 * MIB, 5 * MIB).unwrap();
    assert_eq!(plan, vec![0]);
    // After deletion and the write, the cache sits within its budget.
    assert!(dir.bytes_outside(&plan) + (5 * MIB) as u128 <= (100 * MIB) as u128);
}

#[test]
fn eviction_skips_files_not_recognized_as_images() {
    let dir = CacheDir::new(vec![
        file("keep.db", 90 * MIB, 1),
        file("young.png", 9 * MIB, 5),
    ]);
    // Only the image can go; the database file stays whatever its age.
    let plan = dir.plan_eviction(100 * MIB, 5 * MIB).unwrap();
    assert_eq!(plan, vec![1]);
}

#[test]
fn eviction_when_nothing_needs_to_go() {
    let dir = CacheDir::new(vec![file("a.png", 10 * MIB, 1)]);
    let plan = dir.plan_eviction(100 * MIB, 5 * MIB).unwrap();
    assert!(plan.is_empty());
}

#[test]
fn cache_full_when_no_evictable_file_remains() {
    let dir = CacheDir::new(vec![file("huge.db", 99 * MIB, 1)]);
    assert_eq!(
        dir.plan_eviction(100 * MIB, 5 * MIB),
        Err(HostError::CacheFull)
    );
}

#[test]
fn eviction_takes_files_oldest_first() {
    let dir = CacheDir::new(vec![
        file("newer.png", 40 * MIB, 9),
        file("oldest.png", 40 * MIB, 1),
        file("middle.png", 19 * MIB, 5),
    ]);
    // 99 MiB held; 55 MiB incoming: the two oldest images must go, in
    // age order.
    let plan = dir.plan_eviction(100 * MIB, 55 * MIB).unwrap();
    assert_eq!(plan, vec![1, 2]);
}

#[test]
fn bytes_outside_sums_the_survivors() {
    let dir = CacheDir::new(vec![file("a.png", 7, 1), file("b.png", 5, 2)]);
    assert_eq!(dir.bytes_outside(&vec![]), 12);
    assert_eq!(dir.bytes_outside(&vec![0]), 5);
}

#[test]
fn get_wallpaper_is_standard_base64() {
    let data = vec![b'a', b'b', b'c'];
    assert_eq!(get_wallpaper(&data), "YWJj");
    let blob: Vec<u8> = vec![0, 1, 2, 250, 251, 252];
    assert_eq!(
        get_wallpaper(&blob),
        base64::engine::general_purpose::STANDARD.encode(&blob)
    );
}
