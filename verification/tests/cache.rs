use rust_gallery::cache::GalleryCache;
use rust_gallery::timestamp::Timestamp;
use rust_gallery::{update_caption, Image};

fn image(path: &str) -> Image {
    Image {
        path: path.to_string(),
        caption: String::new(),
        time: Timestamp::epoch(),
        width: 0,
        height: 0,
        mp4_scaled: false,
        location: None,
    }
}

#[test]
fn empty_cache_holds_nothing() {
    let cache = GalleryCache::new();
    assert_eq!(cache.get("/srv/a"), None);
}

#[test]
fn gallery_is_held_by_its_directory() {
    let mut cache = GalleryCache::new();
    cache.insert("/srv/a".to_string(), vec![image("1.jpg")]);
    cache.insert("/srv/b".to_string(), vec![image("2.jpg"), image("3.jpg")]);
    assert_eq!(cache.get("/srv/a"), Some(&vec![image("1.jpg")]));
    assert_eq!(cache.get("/srv/b").unwrap().len(), 2);
    assert_eq!(cache.get("/srv/c"), None);
    assert_eq!(cache.get("/srv/a/"), None);
}

#[test]
fn later_gallery_takes_the_place_of_an_earlier() {
    let mut cache = GalleryCache::new();
    cache.insert("/srv/a".to_string(), vec![image("1.jpg")]);
    cache.insert("/srv/a".to_string(), vec![image("2.jpg")]);
    assert_eq!(cache.get("/srv/a"), Some(&vec![image("2.jpg")]));
    cache.invalidate("/srv/a");
    assert_eq!(cache.get("/srv/a"), None);
}

#[test]
fn invalidate_forgets_one_gallery_only() {
    let mut cache = GalleryCache::new();
    cache.insert("/srv/a".to_string(), vec![image("1.jpg")]);
    cache.insert("/srv/b".to_string(), vec![image("2.jpg")]);
    cache.invalidate("/srv/a");
    assert_eq!(cache.get("/srv/a"), None);
    assert_eq!(cache.get("/srv/b"), Some(&vec![image("2.jpg")]));
    cache.invalidate("/srv/missing");
    assert_eq!(cache.get("/srv/b"), Some(&vec![image("2.jpg")]));
}

#[test]
fn load_runs_on_a_miss_only() {
    let mut cache = GalleryCache::new();
    let mut loads = 0;
    let first = cache
        .get_or_load("/srv/a", || {
            loads += 1;
            Some(vec![image("1.jpg")])
        })
        .cloned();
    assert_eq!(first, Some(vec![image("1.jpg")]));
    let second = cache
        .get_or_load("/srv/a", || {
            loads += 1;
            Some(vec![image("other.jpg")])
        })
        .cloned();
    assert_eq!(second, Some(vec![image("1.jpg")]));
    assert_eq!(loads, 1);
}

#[test]
fn missing_gallery_is_not_found_and_not_held() {
    let mut cache = GalleryCache::new();
    assert_eq!(cache.get_or_load("/srv/a", || None), None);
    assert_eq!(cache.get("/srv/a"), None);
    assert_eq!(cache.get_or_load("/srv/a", || Some(vec![])), Some(&vec![]));
}

#[test]
fn gallery_with_a_day_that_does_not_exist_is_not_taken() {
    let mut cache = GalleryCache::new();
    let mut broken = image("1.jpg");
    broken.time.day = 0;
    assert_eq!(cache.get_or_load("/srv/a", || Some(vec![broken])), None);
    assert_eq!(cache.get("/srv/a"), None);
}

#[test]
fn read_after_a_caption_change_sees_the_new_caption() {
    let mut stored = vec![image("1.jpg"), image("2.jpg"), image("3.jpg")];
    let mut cache = GalleryCache::new();
    let before = cache.get_or_load("/srv/g", || Some(stored.clone())).cloned().unwrap();
    assert_eq!(before[2].caption, "");
    assert!(update_caption(&mut stored, 2, &"Sunset".to_string()));
    let stale = cache.get_or_load("/srv/g", || Some(stored.clone())).cloned().unwrap();
    assert_eq!(stale[2].caption, "");
    cache.invalidate("/srv/g");
    let after = cache.get_or_load("/srv/g", || Some(stored.clone())).cloned().unwrap();
    assert_eq!(after[2].caption, "Sunset");
    assert_eq!(after.len(), 3);
    assert_eq!(after[0], image("1.jpg"));
}
