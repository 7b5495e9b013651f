//! Font records, face selection, and the most-recently-used metrics cache.

use std::sync::Arc;
use glane::font::{Cache, Font, FontError, FontFace, FontFile};
use glane::geometry::LogicalRect;

fn sample_file() -> Arc<FontFile> {
    Arc::new(FontFile::from_parts(
        String::from("fonts/sample.ttc"),
        vec![0, 1, 2, 3],
        vec![String::from("Sample Sans"), String::from("Sample Serif")],
    ))
}

#[test]
fn face_selection_by_index() {
    let file = sample_file();
    let face = FontFace::new(&file, 1).unwrap();
    assert_eq!(face.font_family_name().as_str(), "Sample Serif");
    assert_eq!(face.index(), 1);
    assert_eq!(FontFace::new(&file, 2).unwrap_err(), FontError::NotFound);
}

#[test]
fn face_selection_by_family_name() {
    let file = sample_file();
    let face = FontFace::from_font_family_name(&file, &String::from("Sample Sans")).unwrap();
    assert_eq!(face.index(), 0);
    let missing = FontFace::from_font_family_name(&file, &String::from("Nope"));
    assert_eq!(missing.unwrap_err(), FontError::NotFound);
    assert_eq!(file.path().as_str(), "fonts/sample.ttc");
    assert_eq!(file.iter().len(), 2);
    assert_eq!(file.data(), &vec![0u8, 1, 2, 3]);
}

#[test]
fn fonts_compare_by_face_and_size() {
    let file = sample_file();
    let face = FontFace::new(&file, 0).unwrap();
    let a = Font::new(&face, 14);
    let b = Font::new(&face, 14);
    let c = Font::new(&face, 16);
    assert!(a.key_eq(&b));
    assert!(!a.key_eq(&c));
}

#[test]
fn cache_hits_move_to_the_front_and_misses_change_nothing() {
    let file = sample_file();
    let face = FontFace::new(&file, 0).unwrap();
    let font = Font::new(&face, 14);
    let mut cache = Cache::new(2);

    assert!(cache.get(&font, &String::from("hi")).is_none());

    let r1 = LogicalRect::new(0, 0, 20, 10);
    let r2 = LogicalRect::new(0, 0, 35, 10);
    cache.insert(Font::new(&face, 14), String::from("hi"), r1);
    cache.insert(Font::new(&face, 14), String::from("there"), r2);

    assert_eq!(cache.get(&font, &String::from("hi")), Some(r1));
    assert_eq!(cache.get(&font, &String::from("there")), Some(r2));
    assert!(cache.get(&font, &String::from("absent")).is_none());

    // a different size is a different key
    let other = Font::new(&face, 16);
    assert!(cache.get(&other, &String::from("hi")).is_none());
}

#[test]
fn cache_is_bounded_and_drops_the_least_recently_used() {
    let file = sample_file();
    let face = FontFace::new(&file, 0).unwrap();
    let font = Font::new(&face, 14);
    let mut cache = Cache::new(2);

    let r1 = LogicalRect::new(0, 0, 10, 10);
    let r2 = LogicalRect::new(0, 0, 20, 10);
    let r3 = LogicalRect::new(0, 0, 30, 10);
    cache.insert(Font::new(&face, 14), String::from("a"), r1);
    cache.insert(Font::new(&face, 14), String::from("b"), r2);
    // "a" becomes most recently used, so "b" is the one to go
    assert_eq!(cache.get(&font, &String::from("a")), Some(r1));
    cache.insert(Font::new(&face, 14), String::from("c"), r3);

    assert_eq!(cache.get(&font, &String::from("c")), Some(r3));
    assert_eq!(cache.get(&font, &String::from("a")), Some(r1));
    assert!(cache.get(&font, &String::from("b")).is_none());
}
