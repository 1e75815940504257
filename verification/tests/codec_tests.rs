use photomosaic::color::Rgb;
use photomosaic::codec::{deserialize_db, serialize_db};
use photomosaic::db::{ThumbnailData, ThumbnailDb};
use photomosaic::errors::MosaicError;

fn record(path: &str, res: u32, colors: Vec<Rgb>) -> ThumbnailData {
    ThumbnailData { path: String::from(path), res, colors }
}

fn assert_same_records(a: &ThumbnailDb, b: &ThumbnailDb) {
    assert_eq!(a.thumbs.len(), b.thumbs.len());
    for (x, y) in a.thumbs.iter().zip(b.thumbs.iter()) {
        assert_eq!(x.path, y.path);
        assert_eq!(x.res, y.res);
        assert_eq!(x.colors, y.colors);
    }
}

#[test]
fn round_trip_preserves_records_and_order() {
    let db = ThumbnailDb {
        thumbs: vec![
            record("thumbs/cat.jpg", 2, vec![Rgb { r: 1, g: 2, b: 3 }; 4]),
            record("thumbs/dog.jpg", 2, vec![Rgb { r: 200, g: 100, b: 0 }; 4]),
            record("thumbs/cat.jpg", 4, vec![Rgb { r: 9, g: 8, b: 7 }; 16]),
        ],
    };
    let bytes = serialize_db(&db);
    let loaded = deserialize_db(&bytes).expect("serialized database must load");
    assert_same_records(&db, &loaded);
}

#[test]
fn round_trip_keeps_non_ascii_paths() {
    let db = ThumbnailDb {
        thumbs: vec![
            record("fotos/bär.png", 3, vec![Rgb { r: 0, g: 0, b: 0 }; 9]),
            record("fotos/日本.png", 3, vec![Rgb { r: 255, g: 255, b: 255 }; 9]),
        ],
    };
    let bytes = serialize_db(&db);
    let loaded = deserialize_db(&bytes).expect("serialized database must load");
    assert_same_records(&db, &loaded);
}

#[test]
fn empty_database_round_trips() {
    let db = ThumbnailDb::new();
    let bytes = serialize_db(&db);
    assert_eq!(bytes.len(), 4);
    let loaded = deserialize_db(&bytes).expect("serialized database must load");
    assert_eq!(loaded.thumbs.len(), 0);
}

#[test]
fn truncated_cache_is_corrupt() {
    let db = ThumbnailDb {
        thumbs: vec![record("a", 1, vec![Rgb { r: 5, g: 6, b: 7 }])],
    };
    let mut bytes = serialize_db(&db);
    bytes.pop();
    match deserialize_db(&bytes) {
        Err(MosaicError::CorruptCache) => {},
        _ => panic!("a truncated cache must be rejected whole"),
    }
}

#[test]
fn trailing_bytes_are_corrupt() {
    let db = ThumbnailDb {
        thumbs: vec![record("a", 1, vec![Rgb { r: 5, g: 6, b: 7 }])],
    };
    let mut bytes = serialize_db(&db);
    bytes.push(0);
    match deserialize_db(&bytes) {
        Err(MosaicError::CorruptCache) => {},
        _ => panic!("trailing bytes must be rejected"),
    }
}

#[test]
fn empty_input_is_corrupt() {
    match deserialize_db(&Vec::new()) {
        Err(MosaicError::CorruptCache) => {},
        _ => panic!("an empty stream holds no record count"),
    }
}

#[test]
fn duplicate_keys_are_corrupt() {
    // Two records with the same (path, res) violate the database invariant;
    // a stream carrying them is rejected whole.
    let db = ThumbnailDb {
        thumbs: vec![
            record("same", 2, vec![Rgb { r: 0, g: 0, b: 0 }; 4]),
            record("same", 2, vec![Rgb { r: 1, g: 1, b: 1 }; 4]),
        ],
    };
    let bytes = serialize_db(&db);
    match deserialize_db(&bytes) {
        Err(MosaicError::CorruptCache) => {},
        _ => panic!("duplicate keys must be rejected"),
    }
}

#[test]
fn invalid_scalar_in_path_is_corrupt() {
    // count = 1, path length = 1, then a surrogate value for the character.
    let mut bytes: Vec<u8> = Vec::new();
    bytes.extend_from_slice(&1u32.to_le_bytes());
    bytes.extend_from_slice(&1u32.to_le_bytes());
    bytes.extend_from_slice(&0xD800u32.to_le_bytes());
    bytes.extend_from_slice(&1u32.to_le_bytes());
    bytes.extend_from_slice(&0u32.to_le_bytes());
    match deserialize_db(&bytes) {
        Err(MosaicError::CorruptCache) => {},
        _ => panic!("a surrogate scalar is not a character"),
    }
}

#[test]
fn error_messages_name_their_condition() {
    assert_eq!(MosaicError::CorruptCache.message(), "the thumbnail cache is corrupt");
    assert!(!MosaicError::CorruptCache.is_config());
    assert!(MosaicError::ThumbsizeTooLarge.is_config());
}
