use rust_gallery::indexer::{
    assign_date, assign_date_from_filename, block_image, codec_command, counter_date,
    downscale_command, downscale_videos, extract_value, filename_time_from, get_digits,
    index_gallery, load_captions, needs_scaling, probe_blocks, read_exif, real_time_of,
    recover_captions, resolve_time, run_outcome, DateError, FileDateError, IndexError, ProbeBlock,
};
use rust_gallery::photos::Image;
use rust_gallery::textmap::TextMap;
use rust_gallery::timestamp::Timestamp;

fn at(year: i32, month: u32, day: u32, hour: u32, minute: u32, second: u32) -> Timestamp {
    Timestamp { year, month, day, hour, minute, second, nanosecond: 0 }
}

fn image(path: &str) -> Image {
    Image {
        path: path.to_string(),
        caption: String::new(),
        time: Timestamp::epoch(),
        width: 0,
        height: 0,
        mp4_scaled: false,
        location: None,
    }
}

#[test]
fn digits_are_the_longest_run() {
    assert_eq!(get_digits(&"IMG20230115143022.jpg".to_string()), "20230115143022");
    assert_eq!(get_digits(&"VID20230115143022.mp4".to_string()), "20230115143022");
    assert_eq!(get_digits(&"VID_2023-01-15_14.30.22.mp4".to_string()), "2023");
    assert_eq!(get_digits(&"12a345b67".to_string()), "345");
    assert_eq!(get_digits(&"none.jpg".to_string()), "");
    assert_eq!(get_digits(&String::new()), "");
}

#[test]
fn of_runs_equally_long_the_first_is_taken() {
    assert_eq!(get_digits(&"ab123cd456.jpg".to_string()), "123");
    assert_eq!(get_digits(&"1.mp4".to_string()), "1");
    assert_eq!(get_digits(&"7".to_string()), "7");
}

#[test]
fn video_name_states_date_and_time() {
    let mut img = image("VID20230115143022.mp4");
    assert_eq!(assign_date_from_filename(&mut img), Ok(()));
    assert_eq!(img.time, at(2023, 1, 15, 14, 30, 22));
    let mut split = image("VID_20230115_143022.mp4");
    assert_eq!(assign_date_from_filename(&mut split), Err(DateError::NotFourteenDigits));
}

#[test]
fn file_name_states_date_and_time() {
    let mut img = image("IMG20230115143022.jpg");
    assert_eq!(assign_date_from_filename(&mut img), Ok(()));
    assert_eq!(img.time, at(2023, 1, 15, 14, 30, 22));
    assert_eq!(img.path, "IMG20230115143022.jpg");
}

#[test]
fn invalid_time_of_day_is_read_as_a_counter() {
    let mut img = image("IMG20230115000075.jpg");
    assert_eq!(assign_date_from_filename(&mut img), Ok(()));
    assert_eq!(img.time, at(2023, 1, 15, 0, 1, 15));
}

#[test]
fn counter_text_has_minutes_and_seconds() {
    assert_eq!(counter_date("20230115000075"), "20230115000115");
    assert_eq!(counter_date("20230115000000"), "20230115000000");
    assert_eq!(counter_date("20230115003599"), "20230115005959");
    assert_eq!(counter_date("20230115009999"), "202301150016639");
}

#[test]
fn counter_of_an_hour_or_more_is_no_date() {
    let mut img = image("IMG20230115005999.jpg");
    assert_eq!(assign_date_from_filename(&mut img), Err(DateError::InvalidDate));
    assert_eq!(img.time, Timestamp::epoch());
}

#[test]
fn invalid_day_is_no_date() {
    let mut img = image("IMG20231345000075.jpg");
    assert_eq!(assign_date_from_filename(&mut img), Err(DateError::InvalidDate));
}

#[test]
fn other_than_fourteen_digits_is_an_error() {
    let mut img = image("IMG_2023.jpg");
    assert_eq!(assign_date_from_filename(&mut img), Err(DateError::NotFourteenDigits));
    let mut long = image("IMG202301151430221.jpg");
    assert_eq!(assign_date_from_filename(&mut long), Err(DateError::NotFourteenDigits));
    assert_eq!(long.time, Timestamp::epoch());
}

#[test]
fn probe_line_sets_the_time() {
    let mut img = image("a.jpg");
    assign_date("Create Date                     : 2023:01:15 14:30:22", &mut img);
    assert_eq!(img.time, at(2023, 1, 15, 14, 30, 22));
}

#[test]
fn unparsable_probe_line_changes_nothing() {
    let mut img = image("a.jpg");
    img.time = at(2001, 2, 3, 4, 5, 6);
    assign_date("Create Date                     : 0000:00:00 00:00:00", &mut img);
    assert_eq!(img.time, at(2001, 2, 3, 4, 5, 6));
    assign_date("Create Date without a colon", &mut img);
    assert_eq!(img.time, at(2001, 2, 3, 4, 5, 6));
    assign_date("", &mut img);
    assert_eq!(img.time, at(2001, 2, 3, 4, 5, 6));
}

#[test]
fn value_is_taken_after_the_last_colon() {
    let mut img = image("a.jpg");
    assign_date("Note: Create Date: 2023:01:15 14:30:22", &mut img);
    assert_eq!(img.time, at(2023, 1, 15, 14, 30, 22));
}

const OUTPUT: &str = "======== a.jpg
Create Date                     : 2020:01:01 10:00:00
Date/Time Original              : 2019:12:31 09:00:00
File Modification Date/Time     : 2021:05:05 12:00:00
Image Width                     : 4000
Image Height                    : 3000
======== a.mp4.preview.jpg
Create Date                     : 2020:01:01 10:00:00
======== b.mp4
File Modification Date/Time     : 2021:05:05 12:00:00
Create Date                     : 2018:03:04 05:06:07
Image Width                     : 1920
Image Height                    : 1080
======== b.mp4.scaled.mp4
======== thumbnails.jpg
Image Width                     : 100
======== c.jpg
Date/Time Original              : not a date
File Modification Date/Time     : 2022:06:07 08:09:10
    2 image files read
";

#[test]
fn time_taken_comes_before_the_other_times() {
    let scan = read_exif(OUTPUT, &TextMap::new(), false).unwrap();
    assert_eq!(scan.images[0].path, "a.jpg");
    assert_eq!(scan.images[0].time, at(2019, 12, 31, 9, 0, 0));
}

#[test]
fn time_created_comes_before_time_written() {
    let scan = read_exif(OUTPUT, &TextMap::new(), false).unwrap();
    assert_eq!(scan.images[1].path, "b.mp4");
    assert_eq!(scan.images[1].time, at(2018, 3, 4, 5, 6, 7));
}

#[test]
fn unparsable_date_does_not_stop_the_run() {
    let scan = read_exif(OUTPUT, &TextMap::new(), false).unwrap();
    assert_eq!(scan.images[2].path, "c.jpg");
    assert_eq!(scan.images[2].time, at(2022, 6, 7, 8, 9, 10));
}

#[test]
fn scan_keeps_files_and_lists_left_overs() {
    let mut captions = TextMap::new();
    captions.insert("b.mp4".to_string(), "A film".to_string());
    let scan = read_exif(OUTPUT, &captions, false).unwrap();
    assert_eq!(scan.images.len(), 3);
    assert_eq!(
        scan.stale,
        vec![
            "a.mp4.preview.jpg".to_string(),
            "b.mp4.scaled.mp4".to_string(),
            "thumbnails.jpg".to_string()
        ]
    );
    assert_eq!(
        scan.images[0],
        Image {
            path: "a.jpg".to_string(),
            caption: String::new(),
            time: at(2019, 12, 31, 9, 0, 0),
            width: 4000,
            height: 3000,
            mp4_scaled: false,
            location: None,
        }
    );
    assert_eq!(scan.images[1].caption, "A film");
    assert_eq!((scan.images[1].width, scan.images[1].height), (1920, 1080));
    assert_eq!((scan.images[2].width, scan.images[2].height), (0, 0));
}

#[test]
fn file_without_any_date_keeps_the_epoch() {
    let scan = read_exif("======== a.jpg\nImage Width : 10\n", &TextMap::new(), false).unwrap();
    assert_eq!(scan.images[0].time, Timestamp::epoch());
    assert!(!scan.images[0].time.is_resolved());
    assert_eq!(scan.images[0].width, 10);
}

#[test]
fn lines_before_the_first_file_are_passed_over() {
    let scan = read_exif("Create Date : 2020:01:01 10:00:00\n", &TextMap::new(), false).unwrap();
    assert!(scan.images.is_empty());
    assert!(scan.stale.is_empty());
    let empty = read_exif("", &TextMap::new(), true).unwrap();
    assert!(empty.images.is_empty());
}

#[test]
fn width_that_does_not_fit_is_passed_over() {
    let out = "======== a.jpg\nImage Width : 70000\nImage Height : 12\nImage Height : x\n";
    let scan = read_exif(out, &TextMap::new(), false).unwrap();
    assert_eq!((scan.images[0].width, scan.images[0].height), (0, 12));
}

#[test]
fn file_name_mode_takes_the_time_from_the_name() {
    let out = "======== IMG20230115143022.jpg\nDate/Time Original : 2019:12:31 09:00:00\n";
    let scan = read_exif(out, &TextMap::new(), true).unwrap();
    assert_eq!(scan.images[0].time, at(2023, 1, 15, 14, 30, 22));
    let probed = read_exif(out, &TextMap::new(), false).unwrap();
    assert_eq!(probed.images[0].time, at(2019, 12, 31, 9, 0, 0));
}

#[test]
fn file_name_mode_fails_on_a_name_without_date() {
    let out = "======== IMG20230115143022.jpg\n======== holiday.jpg\n======== x.jpg\n";
    assert_eq!(
        read_exif(out, &TextMap::new(), true),
        Err(FileDateError { path: "holiday.jpg".to_string(), reason: DateError::NotFourteenDigits })
    );
    assert!(read_exif(out, &TextMap::new(), false).is_ok());
    let invalid = "======== IMG20231345000075.jpg\n======== holiday.jpg\n";
    assert_eq!(
        read_exif(invalid, &TextMap::new(), true),
        Err(FileDateError {
            path: "IMG20231345000075.jpg".to_string(),
            reason: DateError::InvalidDate
        })
    );
}

#[test]
fn file_name_mode_passes_over_left_overs() {
    let out = "======== thumbnails.jpg\n======== IMG20230115143022.jpg\n";
    let scan = read_exif(out, &TextMap::new(), true).unwrap();
    assert_eq!(scan.images.len(), 1);
    assert_eq!(scan.stale, vec!["thumbnails.jpg".to_string()]);
}

#[test]
fn file_name_that_states_the_epoch_leaves_the_probe_to_decide() {
    let out = "======== IMG19700101000000.jpg\nCreate Date : 2020:01:01 10:00:00\n";
    let scan = read_exif(out, &TextMap::new(), true).unwrap();
    assert_eq!(scan.images[0].time, at(2020, 1, 1, 10, 0, 0));
}

#[test]
fn output_falls_into_blocks() {
    let blocks = probe_blocks("junk\n======== a.jpg\r\nx: 1\ny: 2\n======== b.jpg");
    assert_eq!(
        blocks,
        vec![
            ProbeBlock {
                path: "a.jpg".to_string(),
                fields: vec!["x: 1".to_string(), "y: 2".to_string()]
            },
            ProbeBlock { path: "b.jpg".to_string(), fields: vec![] },
        ]
    );
}

#[test]
fn block_gives_a_record() {
    let block = ProbeBlock {
        path: "a.jpg".to_string(),
        fields: vec![
            "Image Width : 7".to_string(),
            "Image Width : 8".to_string(),
            "Create Date : 2020:01:01 10:00:00".to_string(),
            "Create Date : 2021:01:01 10:00:00".to_string(),
        ],
    };
    let img = block_image(&block, &TextMap::new(), false).unwrap();
    assert_eq!(img.width, 8);
    assert_eq!(img.time, at(2020, 1, 1, 10, 0, 0));
    assert_eq!(block_image(&block, &TextMap::new(), true), Err(DateError::NotFourteenDigits));
}

#[test]
fn caption_file_gives_captions() {
    let captions = load_captions(Some("a.jpg Hello world\nb.jpg \nnospace\na.jpg Again\n"), None);
    assert_eq!(captions.get("a.jpg"), Some(&"Again".to_string()));
    assert_eq!(captions.get("b.jpg"), Some(&String::new()));
    assert_eq!(captions.get("nospace"), None);
}

const RECORDS: &str = "[
  {
    \"path\": \"a.jpg\",
    \"caption\": \"At the beach\",
    \"time\": \"2023-01-15T14:30:22\",
    \"width\": 4000
  },
  {
    \"path\": \"b.mp4\",
    \"caption\": \"\",
    \"location\": \"Lisbon\"
  }
]";

#[test]
fn old_records_give_captions() {
    let captions = recover_captions(RECORDS);
    assert_eq!(captions.get("a.jpg"), Some(&"At the beach".to_string()));
    assert_eq!(captions.get("b.mp4"), Some(&String::new()));
    assert_eq!(captions.get("c.jpg"), None);
}

#[test]
fn caption_file_comes_before_old_records() {
    let both = load_captions(Some("a.jpg From the file"), Some(RECORDS));
    assert_eq!(both.get("a.jpg"), Some(&"From the file".to_string()));
    assert_eq!(both.get("b.mp4"), None);
    let old = load_captions(None, Some(RECORDS));
    assert_eq!(old.get("a.jpg"), Some(&"At the beach".to_string()));
    let none = load_captions(None, None);
    assert_eq!(none.get("a.jpg"), None);
}

#[test]
fn value_stands_between_third_and_fourth_quote() {
    assert_eq!(extract_value(&"    \"path\": \"a.jpg\",".to_string()), "a.jpg");
    assert_eq!(extract_value(&"    \"caption\": \"say \\\"hi\\\"\",".to_string()), "say \\");
    assert_eq!(extract_value(&"\"a\": \"rest".to_string()), "rest");
}

#[test]
fn failed_command_yields_all_it_wrote() {
    assert_eq!(run_outcome(true, b"out".to_vec(), b"err".to_vec()), Ok(b"out".to_vec()));
    assert_eq!(run_outcome(false, b"out".to_vec(), b"err".to_vec()), Err(b"outerr".to_vec()));
}

#[test]
fn commands_name_the_file() {
    assert_eq!(
        codec_command("a.mp4"),
        "ffprobe -v error -select_streams v:0 -show_entries stream=codec_name a.mp4"
    );
    assert_eq!(
        downscale_command("a.mp4"),
        "ffmpeg -y -i a.mp4 -vf scale=1920:-2 -c:a copy -c:v libx264 -f mp4 a.mp4.scaled.mp4"
    );
}

#[test]
fn scaling_goes_by_codec_and_width() {
    let mut img = image("a.mp4");
    img.width = 1920;
    assert!(!needs_scaling(&img, Some("[STREAM]\ncodec_name=h264\n[/STREAM]\n")));
    assert!(needs_scaling(&img, Some("[STREAM]\ncodec_name=hevc\n[/STREAM]\n")));
    assert!(needs_scaling(&img, Some("codec_name=mjpeg")));
    assert!(!needs_scaling(&img, None));
    img.width = 1921;
    assert!(needs_scaling(&img, Some("codec_name=h264")));
    img.width = 640;
    assert!(needs_scaling(&img, Some("codec_name=hevc")));
    assert!(!needs_scaling(&img, Some("codec_name=h264")));
}

#[test]
fn wide_video_is_scaled_where_the_codec_is_not_known() {
    let mut img = image("a.mp4");
    img.width = 1921;
    assert!(needs_scaling(&img, None));
    img.width = 1920;
    assert!(!needs_scaling(&img, None));
    let mut images = vec![img.clone(), Image { width: 4000, ..img }];
    let commands = downscale_videos(&mut images, &vec![None, None]);
    assert_eq!(commands, vec![downscale_command("a.mp4")]);
    assert_eq!(images[0].mp4_scaled, false);
    assert_eq!(images[1].mp4_scaled, true);
}

#[test]
fn videos_that_need_it_are_marked() {
    let mut wide = image("wide.mp4");
    wide.width = 3840;
    let mut images = vec![image("a.jpg"), wide, image("small.mov"), image("old.avi")];
    images[0].width = 5000;
    let codecs = vec![
        Some("codec_name=hevc".to_string()),
        Some("codec_name=h264".to_string()),
        Some("codec_name=h264".to_string()),
        Some("codec_name=mjpeg".to_string()),
    ];
    let commands = downscale_videos(&mut images, &codecs);
    assert_eq!(
        images.iter().map(|i| i.mp4_scaled).collect::<Vec<bool>>(),
        vec![false, true, false, true]
    );
    assert_eq!(commands, vec![downscale_command("wide.mp4"), downscale_command("old.avi")]);
    assert_eq!(images[1].path, "wide.mp4");
    assert_eq!(images[1].width, 3840);
}

fn paths(images: &Vec<Image>) -> Vec<String> {
    images.iter().map(|i| i.path.clone()).collect()
}

#[test]
fn gallery_is_built_in_the_order_of_times() {
    let scan = index_gallery(OUTPUT, &TextMap::new(), false, false).unwrap();
    assert_eq!(paths(&scan.images), vec!["b.mp4", "a.jpg", "c.jpg"]);
    assert_eq!(scan.stale.len(), 3);
}

#[test]
fn gallery_is_built_in_the_order_of_numbers() {
    let out = "======== 10.jpg\n======== 9.jpg\n======== thumbnails.jpg\n======== 1.mp4\n";
    let scan = index_gallery(out, &TextMap::new(), false, true).unwrap();
    assert_eq!(paths(&scan.images), vec!["1.mp4", "9.jpg", "10.jpg"]);
    assert_eq!(scan.stale, vec!["thumbnails.jpg".to_string()]);
    let by_time = index_gallery(out, &TextMap::new(), false, false).unwrap();
    assert_eq!(paths(&by_time.images), vec!["10.jpg", "9.jpg", "1.mp4"]);
}

#[test]
fn gallery_is_not_built_on_an_error() {
    let out = "======== 1.jpg\n======== none.jpg\n";
    assert_eq!(
        index_gallery(out, &TextMap::new(), false, true),
        Err(IndexError::NoNumber("none.jpg".to_string()))
    );
    assert_eq!(
        index_gallery(out, &TextMap::new(), true, true),
        Err(IndexError::Date(FileDateError {
            path: "1.jpg".to_string(),
            reason: DateError::NotFourteenDigits
        }))
    );
    assert!(index_gallery(out, &TextMap::new(), false, false).is_ok());
}

#[test]
fn time_of_a_name_goes_by_the_two_readings() {
    let t = at(2023, 1, 15, 14, 30, 22);
    let c = at(2023, 1, 15, 0, 1, 15);
    assert_eq!(filename_time_from(14, Some(t), None), Ok(t));
    assert_eq!(filename_time_from(14, Some(t), Some(c)), Ok(t));
    assert_eq!(filename_time_from(14, None, Some(c)), Ok(c));
    assert_eq!(filename_time_from(14, None, None), Err(DateError::InvalidDate));
    assert_eq!(filename_time_from(13, Some(t), Some(c)), Err(DateError::NotFourteenDigits));
    assert_eq!(filename_time_from(15, None, None), Err(DateError::NotFourteenDigits));
    assert_eq!(filename_time_from(0, None, None), Err(DateError::NotFourteenDigits));
}

#[test]
fn time_of_a_record_goes_by_priority() {
    let name = at(2023, 1, 15, 14, 30, 22);
    let taken = at(2019, 12, 31, 9, 0, 0);
    let created = at(2020, 1, 1, 10, 0, 0);
    let written = at(2021, 5, 5, 12, 0, 0);
    let epoch = Timestamp::epoch();
    assert_eq!(resolve_time(None, Some(taken), Some(created), Some(written)), taken);
    assert_eq!(resolve_time(None, None, Some(created), Some(written)), created);
    assert_eq!(resolve_time(None, None, None, Some(written)), written);
    assert_eq!(resolve_time(None, None, None, None), epoch);
    assert_eq!(resolve_time(Some(name), Some(taken), Some(created), Some(written)), name);
    assert_eq!(resolve_time(Some(epoch), Some(taken), None, None), taken);
    assert_eq!(resolve_time(Some(epoch), None, None, None), epoch);
}

#[test]
fn epoch_read_from_the_probe_is_no_time() {
    let t = at(2020, 1, 1, 10, 0, 0);
    assert_eq!(real_time_of(Some(t)), Some(t));
    assert_eq!(real_time_of(Some(Timestamp::epoch())), None);
    assert_eq!(real_time_of(None), None);
    let out = "======== a.jpg\nDate/Time Original : 1970:01:01 00:00:00\nCreate Date : 2020:01:01 10:00:00\n";
    let scan = read_exif(out, &TextMap::new(), false).unwrap();
    assert_eq!(scan.images[0].time, t);
}
