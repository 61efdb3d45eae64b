use photolabeler::paths::{file_name, join_path};
use photolabeler::text::{
    chars_of, contains_str, format_i64, parse_i64, rsplit_once_char, same_text, split_at_char,
    string_of,
};

#[test]
fn format_i64_matches_display() {
    for x in [0i64, 7, 10, 42, -1, -10, 1234567890, i64::MAX, i64::MIN] {
        assert_eq!(format_i64(x), x.to_string());
    }
}

#[test]
fn parse_i64_accepts_signed_digits() {
    assert_eq!(parse_i64("0"), Some(0));
    assert_eq!(parse_i64("42"), Some(42));
    assert_eq!(parse_i64("+42"), Some(42));
    assert_eq!(parse_i64("-42"), Some(-42));
    assert_eq!(parse_i64("-0"), Some(0));
    assert_eq!(parse_i64("007"), Some(7));
    assert_eq!(parse_i64("9223372036854775807"), Some(i64::MAX));
    assert_eq!(parse_i64("-9223372036854775808"), Some(i64::MIN));
}

#[test]
fn parse_i64_refuses_what_std_refuses() {
    for s in ["", "+", "-", "9223372036854775808", "-9223372036854775809", "1a", " 1", "1 ", "--1", "1.0", "new_dir_id", "99999999999999999999999"] {
        assert_eq!(parse_i64(s), None, "{s:?}");
        assert!(s.parse::<i64>().is_err());
    }
}

#[test]
fn parse_reads_back_format() {
    for x in [0i64, 1, -1, 99, -100, 123456789, i64::MAX, i64::MIN] {
        assert_eq!(parse_i64(&format_i64(x)), Some(x));
    }
}

#[test]
fn split_matches_std_split() {
    for s in ["a,b,c", "", ",", "a,", ",a", "solo", "x,,y"] {
        let expected: Vec<String> = s.split(',').map(|p| p.to_string()).collect();
        assert_eq!(split_at_char(s, ','), expected);
    }
}

#[test]
fn split_then_join_gives_back_the_text() {
    for s in ["cat,dog", "a,,b,", ""] {
        assert_eq!(split_at_char(s, ',').join(","), s);
    }
}

#[test]
fn rsplit_once_matches_std() {
    assert_eq!(
        rsplit_once_char("archive.tar.gz", '.'),
        Some(("archive.tar".to_string(), "gz".to_string()))
    );
    assert_eq!(rsplit_once_char(".hidden", '.'), Some((String::new(), "hidden".to_string())));
    assert_eq!(rsplit_once_char("trailing.", '.'), Some(("trailing".to_string(), String::new())));
    assert_eq!(rsplit_once_char("noext", '.'), None);
}

#[test]
fn contains_finds_substrings() {
    assert!(contains_str("image/png", "image"));
    assert!(contains_str("x-image", "image"));
    assert!(!contains_str("text/plain", "image"));
    assert!(!contains_str("imag", "image"));
    assert!(contains_str("anything", ""));
}

#[test]
fn chars_and_strings_round_trip() {
    let s = "héllo wörld";
    assert_eq!(string_of(&chars_of(s)), s);
    assert!(same_text("on", "on"));
    assert!(!same_text("on", "off"));
}

#[test]
fn join_path_matches_std() {
    for (base, rel) in [("/photos", "cats"), ("/photos/", "cats"), ("", "cats"), ("/photos", "/abs"), ("a", "")] {
        let expected = std::path::Path::new(base).join(rel).to_string_lossy().into_owned();
        assert_eq!(join_path(base, rel), expected, "{base:?} {rel:?}");
    }
}

#[test]
fn file_name_matches_std() {
    for p in ["/a/b", "/a/b/", "a//b", "foo.txt/.", "foo.txt/.//", "foo/..", "/", ".", "..", "./x", "", "a/./", "name"] {
        let expected = std::path::Path::new(p).file_name().map(|n| n.to_string_lossy().into_owned());
        assert_eq!(file_name(p), expected, "{p:?}");
    }
}

#[test]
fn file_name_of_joined_component_is_the_component() {
    for base in ["/photos", "/photos/", "", "rel/dir"] {
        assert_eq!(file_name(&join_path(base, "holiday")), Some("holiday".to_string()));
    }
}
