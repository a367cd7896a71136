use explorer_core::thumbs::{
    base64_encode, cache_key_for, cache_stats, is_supported_image, jpeg_data_uri,
    thumbnail_cache_file_name, u64_le_bytes,
};

#[test]
fn test_is_supported_image() {
    assert!(is_supported_image("test.jpg"));
    assert!(is_supported_image("test.JPEG"));
    assert!(is_supported_image("test.png"));
    assert!(is_supported_image("test.gif"));
    assert!(is_supported_image("test.webp"));
    assert!(is_supported_image("test.bmp"));
    assert!(!is_supported_image("test.txt"));
    assert!(!is_supported_image("test.pdf"));
}

#[test]
fn test_is_supported_image_full_paths() {
    assert!(is_supported_image("/home/user/photos/cat.PNG"));
    assert!(!is_supported_image("/home/user/.hidden"));
    assert!(!is_supported_image("no_extension"));
}

#[test]
fn test_base64_encode() {
    assert_eq!(base64_encode(b"Hello"), "SGVsbG8=");
    assert_eq!(base64_encode(b"Hi"), "SGk=");
    assert_eq!(base64_encode(b""), "");
}

#[test]
fn test_base64_encode_more_cases() {
    assert_eq!(base64_encode(b"Man"), "TWFu");
    assert_eq!(base64_encode(b"light work."), "bGlnaHQgd29yay4=");
    assert_eq!(base64_encode(&[251u8, 255, 190]), "+/++");
}

#[test]
fn test_cache_key_is_64_hex_chars() {
    let key = cache_key_for("/pictures/test.jpg", 12345);
    assert_eq!(key.len(), 64);
    assert!(key.chars().all(|c| c.is_ascii_hexdigit()));
    // The key depends on the path and on the modification time.
    assert_ne!(key, cache_key_for("/pictures/other.jpg", 12345));
    assert_ne!(key, cache_key_for("/pictures/test.jpg", 12346));
}

#[test]
fn test_u64_le_bytes() {
    assert_eq!(u64_le_bytes(1), vec![1, 0, 0, 0, 0, 0, 0, 0]);
    assert_eq!(u64_le_bytes(0x0102030405060708), vec![8, 7, 6, 5, 4, 3, 2, 1]);
}

#[test]
fn test_cache_file_name_and_data_uri() {
    assert_eq!(thumbnail_cache_file_name("abc"), "abc.jpg");
    assert_eq!(jpeg_data_uri("SGk="), "data:image/jpeg;base64,SGk=");
}

#[test]
fn test_cache_stats_sums_sizes() {
    let stats = cache_stats("/cache".to_string(), &vec![1, 2, 3]);
    assert_eq!(stats.count, 3);
    assert_eq!(stats.total_size, 6);
    assert_eq!(stats.path, "/cache");
    let empty = cache_stats("/cache".to_string(), &Vec::new());
    assert_eq!(empty.count, 0);
    assert_eq!(empty.total_size, 0);
}
