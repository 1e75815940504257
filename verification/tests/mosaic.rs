use photomosaic::color::Rgb;
use photomosaic::db::{ThumbnailData, ThumbnailDb};
use photomosaic::distance::compare_thumbs_u8;
use photomosaic::errors::MosaicError;
use photomosaic::matcher::best_match;

fn sample(r: u8, g: u8, b: u8) -> Rgb {
    Rgb { r, g, b }
}

fn record(path: &str, res: u32, colors: Vec<Rgb>) -> ThumbnailData {
    ThumbnailData { path: String::from(path), res, colors }
}

#[test]
fn distance_of_signature_with_itself_is_zero() {
    let a = vec![sample(10, 20, 30), sample(200, 100, 50)];
    assert_eq!(compare_thumbs_u8(&a, &a), 0);
}

#[test]
fn distance_is_symmetric() {
    let a = vec![sample(0, 0, 0), sample(255, 255, 255)];
    let b = vec![sample(10, 200, 30), sample(1, 2, 3)];
    assert_eq!(compare_thumbs_u8(&a, &b), compare_thumbs_u8(&b, &a));
}

#[test]
fn distance_exact_value() {
    // (3-1)^2 + (5-2)^2 + (9-5)^2 = 4 + 9 + 16 = 29
    let a = vec![sample(3, 5, 9)];
    let b = vec![sample(1, 2, 5)];
    assert_eq!(compare_thumbs_u8(&a, &b), 29);
}

#[test]
fn distance_length_mismatch_is_sentinel() {
    let a = vec![sample(0, 0, 0)];
    let b = vec![sample(0, 0, 0), sample(0, 0, 0)];
    assert_eq!(compare_thumbs_u8(&a, &b), i32::MAX);
}

#[test]
fn matcher_selects_black_record_for_black_query() {
    // Two 2x2 signatures: A all black, B all white.
    let black = vec![sample(0, 0, 0); 4];
    let white = vec![sample(255, 255, 255); 4];
    let db = ThumbnailDb { thumbs: vec![record("a", 2, black.clone()), record("b", 2, white)] };
    let (idx, score) = best_match(&black, &db);
    assert_eq!(idx, 0);
    assert_eq!(score, 0);
    assert_eq!(db.thumbs[idx].path, "a");
}

#[test]
fn matcher_selects_black_record_for_near_black_query() {
    let black = vec![sample(0, 0, 0); 4];
    let white = vec![sample(255, 255, 255); 4];
    let db = ThumbnailDb { thumbs: vec![record("a", 2, black), record("b", 2, white)] };
    let near_black = vec![sample(1, 1, 1); 4];
    let (idx, score) = best_match(&near_black, &db);
    assert_eq!(idx, 0);
    assert_eq!(score, 12);
}

#[test]
fn matcher_score_is_minimum_over_records() {
    let db = ThumbnailDb {
        thumbs: vec![
            record("far", 1, vec![sample(100, 100, 100)]),
            record("near", 1, vec![sample(10, 10, 10)]),
            record("mid", 1, vec![sample(40, 40, 40)]),
        ],
    };
    let query = vec![sample(9, 9, 9)];
    let (idx, score) = best_match(&query, &db);
    assert_eq!(idx, 1);
    assert_eq!(score, 3);
    for t in &db.thumbs {
        assert!(score <= compare_thumbs_u8(&query, &t.colors));
    }
}

#[test]
fn matcher_tie_keeps_first_record() {
    // Records 0 and 1 are equally distant from the query.
    let db = ThumbnailDb {
        thumbs: vec![
            record("first", 1, vec![sample(10, 0, 0)]),
            record("second", 1, vec![sample(0, 10, 0)]),
        ],
    };
    let query = vec![sample(0, 0, 0)];
    let (idx, score) = best_match(&query, &db);
    assert_eq!(idx, 0);
    assert_eq!(score, 100);
}

#[test]
fn one_record_database_is_rejected_before_matching() {
    let db = ThumbnailDb { thumbs: vec![record("only", 2, vec![sample(0, 0, 0); 4])] };
    match photomosaic::db::check_thumb_count(&db) {
        Err(MosaicError::NotEnoughThumbnails) => {},
        _ => panic!("a one-record database must be rejected"),
    }
    assert!(MosaicError::NotEnoughThumbnails.is_config());
}

#[test]
fn two_record_database_is_accepted() {
    let db = ThumbnailDb {
        thumbs: vec![
            record("a", 2, vec![sample(0, 0, 0); 4]),
            record("b", 2, vec![sample(255, 255, 255); 4]),
        ],
    };
    assert!(photomosaic::db::check_thumb_count(&db).is_ok());
}

#[test]
fn contains_finds_records_by_path_and_resolution() {
    let db = ThumbnailDb {
        thumbs: vec![record("x.jpg", 4, vec![]), record("y.jpg", 2, vec![])],
    };
    assert!(db.contains(&String::from("x.jpg"), 4));
    assert!(!db.contains(&String::from("x.jpg"), 2));
    assert!(db.contains(&String::from("y.jpg"), 2));
    assert!(!db.contains(&String::from("z.jpg"), 4));
}

#[test]
fn plan_import_lists_only_missing_keys() {
    let db = ThumbnailDb {
        thumbs: vec![record("a.jpg", 4, vec![]), record("b.jpg", 4, vec![])],
    };
    let paths = vec![
        String::from("a.jpg"),
        String::from("new.jpg"),
        String::from("b.jpg"),
        String::from("other.jpg"),
    ];
    let plan = photomosaic::db::plan_import(&db, &paths, 4);
    assert_eq!(plan, vec![String::from("new.jpg"), String::from("other.jpg")]);
}

#[test]
fn import_is_idempotent_when_all_keys_present() {
    // A database that already holds every candidate key plans no imports,
    // so nothing is appended and the cache is not rewritten.
    let db = ThumbnailDb {
        thumbs: vec![record("a.jpg", 4, vec![]), record("b.jpg", 4, vec![])],
    };
    let paths = vec![String::from("b.jpg"), String::from("a.jpg")];
    let plan = photomosaic::db::plan_import(&db, &paths, 4);
    assert!(plan.is_empty());
    // A changed sample resolution invalidates nothing but needs new entries.
    let plan_other_res = photomosaic::db::plan_import(&db, &paths, 2);
    assert_eq!(plan_other_res.len(), 2);
}

#[test]
fn append_keeps_order() {
    let mut db = ThumbnailDb::new();
    db.append(record("a", 1, vec![sample(1, 2, 3)]));
    db.append(record("b", 1, vec![sample(4, 5, 6)]));
    assert_eq!(db.len(), 2);
    assert_eq!(db.thumbs[0].path, "a");
    assert_eq!(db.thumbs[1].path, "b");
}
