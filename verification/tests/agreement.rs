use std::collections::HashMap;

use rust_gallery::indexer::{extract_value, get_digits};
use rust_gallery::request::{get_crumb, join_path, parse_query_string};
use rust_gallery::server::{locate, ModuleConfig};
use rust_gallery::{is_jpg, is_mp4};

fn longest_run(text: &str) -> String {
    let chars: Vec<char> = text.chars().collect();
    let mut best = String::new();
    for start in 0..chars.len() {
        let run: String = chars[start..].iter().take_while(|c| c.is_ascii_digit()).collect();
        if run.chars().count() > best.chars().count() {
            best = run;
        }
    }
    best
}

const TEXTS: [&str; 16] = [
    "",
    "a",
    "/",
    "a/b",
    "/a/b/",
    "a=b&c=d",
    "=",
    "&&=&",
    "x=1=2&x=3",
    "IMG_2023.jpg",
    "caf\u{e9} \u{0663}7.MP4",
    "\"a\": \"b\"",
    "    \"path\": \"x.jpg\",",
    "\"\"\"\"\"\"",
    "a.mov.scaled.mp4",
    "crumb=abc",
];

#[test]
fn digits_agree_with_a_search_over_every_start() {
    for text in TEXTS {
        assert_eq!(get_digits(&text.to_string()), longest_run(text), "{:?}", text);
    }
    for text in ["12a345b67", "123a456", "1a22b22c1", "a9", "9", "00x0"] {
        assert_eq!(get_digits(&text.to_string()), longest_run(text), "{:?}", text);
    }
}

#[test]
fn endings_agree_with_the_standard_test() {
    for text in TEXTS {
        assert_eq!(is_jpg(&text.to_string()), text.ends_with(".jpg") || text.ends_with(".JPG"));
        let video = [".mp4", ".MP4", ".mov", ".MOV", ".avi", ".AVI"].iter().any(|e| text.ends_with(e));
        assert_eq!(is_mp4(&text.to_string()), video, "{:?}", text);
    }
}

#[test]
fn joined_paths_agree_with_the_standard_push() {
    for dir in TEXTS {
        for name in TEXTS {
            let mut expected = std::path::PathBuf::from(dir);
            expected.push(name);
            assert_eq!(join_path(dir, name), expected.to_str().unwrap(), "{:?} {:?}", dir, name);
        }
    }
}

#[test]
fn query_agrees_with_a_standard_map() {
    for query in TEXTS {
        let expected: HashMap<String, String> = query
            .split('&')
            .filter_map(|s| s.split_once('=').map(|t| (t.0.to_owned(), t.1.to_owned())))
            .collect();
        let parsed = parse_query_string(query);
        for key in ["", "a", "c", "x", "crumb", "caf\u{e9} \u{0663}7.MP4"] {
            assert_eq!(parsed.get(key), expected.get(key), "{:?} {:?}", query, key);
        }
    }
}

#[test]
fn value_in_quotes_agrees_with_the_standard_split() {
    for line in TEXTS {
        let parts = line.splitn(5, '"').collect::<Vec<_>>();
        if let Some(expected) = parts.get(3) {
            assert_eq!(extract_value(&line.to_string()), *expected, "{:?}", line);
        }
    }
}

#[test]
fn path_is_split_as_the_standard_split_does() {
    let config = ModuleConfig { enabled: true, root: "/srv".to_string() };
    for path in TEXTS {
        let expected = path.rsplit_once('/');
        let located = locate(&config, path);
        assert_eq!(
            located.as_ref().map(|t| (t.uri_path.as_str(), t.file_name.as_str())),
            expected,
            "{:?}",
            path
        );
        if let Some(t) = located {
            assert_eq!(t.gallery_path, format!("/srv{}", t.uri_path));
        }
    }
}

#[test]
fn crumb_agrees_with_the_standard_prefix_test() {
    for value in TEXTS {
        let headers = vec![("Cookie".to_string(), value.to_string())];
        let expected = value.strip_prefix("crumb=").unwrap_or("");
        assert_eq!(get_crumb(&headers), expected, "{:?}", value);
    }
}
