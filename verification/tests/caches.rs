use epub_image_embedder::disk_cache::{
    bytes_row, decode_bytes, decode_text, encode_bytes, encode_settings, encode_text, read_bytes,
    read_row, read_text, text_row, CacheRow, Cached, DiskCacheError,
};
use std::collections::HashMap;

#[test]
fn texts_stand_behind_their_length() {
    let encoded = encode_text("\u{e9}!").unwrap();
    assert_eq!(encoded, vec![3, 0, 0, 0, 0, 0, 0, 0, 0xc3, 0xa9, b'!']);
    assert_eq!(decode_text(&encoded).unwrap(), "\u{e9}!");
}

#[test]
fn bytes_stand_behind_their_length() {
    let encoded = encode_bytes(&[7, 8]).unwrap();
    assert_eq!(encoded, vec![2, 0, 0, 0, 0, 0, 0, 0, 7, 8]);
    assert_eq!(decode_bytes(&encoded).unwrap(), vec![7, 8]);
}

#[test]
fn settings_stand_one_after_the_other() {
    assert_eq!(
        encode_settings("ab", true, Some(0x01020304)).unwrap(),
        vec![2, 0, 0, 0, 0, 0, 0, 0, b'a', b'b', 1, 1, 4, 3, 2, 1]
    );
    assert_eq!(
        encode_settings("", false, None).unwrap(),
        vec![0, 0, 0, 0, 0, 0, 0, 0, 0, 0]
    );
}

#[test]
fn settings_that_differ_have_different_keys() {
    let keys = [
        encode_settings("a", true, Some(1)).unwrap(),
        encode_settings("b", true, Some(1)).unwrap(),
        encode_settings("a", false, Some(1)).unwrap(),
        encode_settings("a", true, Some(2)).unwrap(),
        encode_settings("a", true, None).unwrap(),
    ];
    for i in 0..keys.len() {
        for j in 0..i {
            assert_ne!(keys[i], keys[j]);
        }
    }
}

#[test]
fn texts_that_differ_have_different_keys() {
    assert_ne!(encode_text("a").unwrap(), encode_text("b").unwrap());
    assert_ne!(encode_text("a").unwrap(), encode_text("aa").unwrap());
}

#[test]
fn what_was_not_encoded_is_not_decoded() {
    assert!(matches!(decode_bytes(&[1, 2, 3]), Err(DiskCacheError::Bincode(_))));
    assert!(matches!(decode_bytes(&[2, 0, 0, 0, 0, 0, 0, 0, 7]), Err(DiskCacheError::Bincode(_))));
    let no_text = [1, 0, 0, 0, 0, 0, 0, 0, 0xff];
    assert!(matches!(decode_text(&no_text), Err(DiskCacheError::Bincode(_))));
    assert_eq!(decode_bytes(&no_text).unwrap(), vec![0xff]);
}

#[test]
fn bytes_behind_the_value_do_not_count() {
    assert_eq!(decode_bytes(&[1, 0, 0, 0, 0, 0, 0, 0, 7, 8]).unwrap(), vec![7]);
}

#[test]
fn bytes_are_read_as_written_until_they_expire() {
    let row = |now: u64| read_bytes(Some(bytes_row(&[1, 2], 100, 10).unwrap()), now);
    assert!(matches!(row(100), Ok(Cached::Hit(bytes)) if bytes == [1, 2]));
    assert!(matches!(row(109), Ok(Cached::Hit(bytes)) if bytes == [1, 2]));
    assert!(matches!(row(110), Ok(Cached::Expired)));
    assert!(matches!(row(111), Ok(Cached::Expired)));
}

#[test]
fn texts_are_read_as_written_until_they_expire() {
    let row = |now: u64| read_text(Some(text_row("t", 100, 10).unwrap()), now);
    assert!(matches!(row(109), Ok(Cached::Hit(text)) if text == "t"));
    assert!(matches!(row(110), Ok(Cached::Expired)));
}

#[test]
fn missing_row_is_a_miss() {
    assert!(matches!(read_row(None, 0), Cached::Miss));
    assert!(matches!(read_bytes(None, 0), Ok(Cached::Miss)));
    assert!(matches!(read_text(None, 0), Ok(Cached::Miss)));
}

#[test]
fn broken_row_is_an_error_only_while_it_counts() {
    let row = || Some(CacheRow { value: vec![1], expiry: 5 });
    assert!(matches!(read_bytes(row(), 4), Err(DiskCacheError::Bincode(_))));
    assert!(matches!(read_text(row(), 4), Err(DiskCacheError::Bincode(_))));
    assert!(matches!(read_bytes(row(), 5), Ok(Cached::Expired)));
    assert!(matches!(read_row(row(), 4), Cached::Hit(value) if value == [1]));
}

#[test]
fn rows_last_for_their_seconds() {
    let row = text_row("t", 7, 35).unwrap();
    assert_eq!(row.expiry, 42);
    assert_eq!(row.value, encode_text("t").unwrap());
}

#[test]
fn last_write_of_a_key_counts() {
    let mut rows = HashMap::new();
    let mut write = |key: &str, value: &str, now: u64, seconds: u64| {
        rows.insert(encode_text(key).unwrap(), text_row(value, now, seconds).unwrap());
    };
    write("k", "first", 100, 1000);
    write("other", "x", 101, 1000);
    write("k", "second", 102, 10);
    write("another", "y", 103, 1000);
    let mut read = |key: &str, now: u64| {
        let row = rows.get(&encode_text(key).unwrap()).map(|row| CacheRow {
            value: row.value.clone(),
            expiry: row.expiry,
        });
        match read_text(row, now).unwrap() {
            Cached::Hit(text) => Some(text),
            Cached::Expired => {
                rows.remove(&encode_text(key).unwrap());
                None
            }
            Cached::Miss => None,
        }
    };
    assert_eq!(read("k", 104), Some("second".to_string()));
    assert_eq!(read("k", 111), Some("second".to_string()));
    assert_eq!(read("k", 112), None);
    assert_eq!(read("k", 113), None);
    assert_eq!(read("other", 113), Some("x".to_string()));
    assert_eq!(read("another", 113), Some("y".to_string()));
}
