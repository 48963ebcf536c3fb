use rust_gallery::sort::{numeric_key, sort_by_number, sort_by_time, sort_order, SortKeys};
use rust_gallery::timestamp::Timestamp;
use rust_gallery::Image;

fn at(year: i32, month: u32, day: u32) -> Timestamp {
    Timestamp { year, month, day, hour: 12, minute: 0, second: 0, nanosecond: 0 }
}

fn image(path: &str, time: Timestamp) -> Image {
    Image {
        path: path.to_string(),
        caption: String::new(),
        time,
        width: 0,
        height: 0,
        mp4_scaled: false,
        location: None,
    }
}

fn paths(images: &Vec<Image>) -> Vec<String> {
    images.iter().map(|i| i.path.clone()).collect()
}

#[test]
fn gallery_is_sorted_by_time() {
    let mut images = vec![
        image("c.jpg", at(2023, 3, 1)),
        image("a.jpg", at(2021, 1, 1)),
        image("d.jpg", at(2023, 3, 2)),
        image("b.jpg", at(2022, 12, 31)),
    ];
    sort_by_time(&mut images);
    assert_eq!(paths(&images), vec!["a.jpg", "b.jpg", "c.jpg", "d.jpg"]);
    assert_eq!(images[0].time, at(2021, 1, 1));
}

#[test]
fn records_of_the_same_time_keep_their_order() {
    let same = at(2023, 1, 1);
    let mut images = vec![
        image("z.jpg", same),
        image("late.jpg", at(2024, 1, 1)),
        image("y.jpg", same),
        image("first.jpg", at(2020, 1, 1)),
        image("x.jpg", same),
        image("unresolved.jpg", Timestamp::epoch()),
    ];
    sort_by_time(&mut images);
    assert_eq!(
        paths(&images),
        vec!["unresolved.jpg", "first.jpg", "z.jpg", "y.jpg", "x.jpg", "late.jpg"]
    );
}

#[test]
fn sort_agrees_with_the_standard_sort() {
    let mut images: Vec<Image> = (0..1000u32)
        .map(|i| {
            let n = (i.wrapping_mul(2_654_435_761)) % 97;
            image(&format!("{}.jpg", i), at(2000 + (n % 7) as i32, 1 + n % 12, 1 + n % 28))
        })
        .collect();
    let mut expected = images.clone();
    expected.sort_by_key(|i| (i.time.year, i.time.month, i.time.day));
    sort_by_time(&mut images);
    assert_eq!(images, expected);
}

#[test]
fn small_galleries_are_sorted() {
    let mut none: Vec<Image> = Vec::new();
    sort_by_time(&mut none);
    assert!(none.is_empty());
    let mut one = vec![image("a.jpg", at(2020, 1, 1))];
    sort_by_time(&mut one);
    assert_eq!(paths(&one), vec!["a.jpg"]);
    assert_eq!(sort_by_number(&mut none), Ok(()));
}

#[test]
fn gallery_is_sorted_by_the_number_in_the_name() {
    let t = Timestamp::epoch();
    let mut images = vec![
        image("IMG_10.jpg", t),
        image("IMG_9.jpg", t),
        image("IMG_010.mov", t),
        image("img1-2.jpg", t),
        image("IMG_0.jpg", t),
    ];
    assert_eq!(sort_by_number(&mut images), Ok(()));
    assert_eq!(
        paths(&images),
        vec!["IMG_0.jpg", "img1-2.jpg", "IMG_9.jpg", "IMG_10.jpg", "IMG_010.mov"]
    );
}

#[test]
fn name_without_a_number_stops_the_sort() {
    let t = Timestamp::epoch();
    let mut images = vec![image("2.jpg", t), image("none.jpg", t), image("1.jpg", t), image("x.jpg", t)];
    assert_eq!(sort_by_number(&mut images), Err(1));
    assert_eq!(paths(&images), vec!["2.jpg", "none.jpg", "1.jpg", "x.jpg"]);
    let mut long = vec![image("1.jpg", t), image("IMG20230115143022.jpg", t)];
    assert_eq!(sort_by_number(&mut long), Err(1));
}

#[test]
fn number_of_a_name_is_its_digits() {
    assert_eq!(numeric_key("IMG_0042.jpg"), Some(42));
    assert_eq!(numeric_key("a1b2.mp4"), Some(1));
    assert_eq!(numeric_key("a1b23.mp4"), Some(23));
    assert_eq!(numeric_key("12.mp4"), Some(12));
    assert_eq!(numeric_key("4294967295"), Some(u32::MAX));
    assert_eq!(numeric_key("4294967296"), None);
    assert_eq!(numeric_key("none"), None);
    assert_eq!(numeric_key(""), None);
}

#[test]
fn order_lists_every_record_once() {
    let order = sort_order(&SortKeys::Numbers(vec![5, 3, 5, 1, 3]));
    assert_eq!(order, vec![3, 1, 4, 0, 2]);
    assert!(sort_order(&SortKeys::Times(vec![])).is_empty());
    let times = SortKeys::Times(vec![at(2023, 1, 2), at(2023, 1, 1), at(2023, 1, 2)]);
    assert_eq!(sort_order(&times), vec![1, 0, 2]);
}
